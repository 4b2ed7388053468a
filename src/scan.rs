use vstd::prelude::*;

verus! {

/// One step of the scan that finds which variant a Java object stands for.
#[derive(PartialEq, Eq, Structural, Clone, Copy, Debug)]
pub enum ScanStep {
    /// Check whether the object matches the variant at this index.
    Check(usize),
    /// The object is the variant at this index.
    Select(usize),
    /// The object is the variant at this index, which may not be built from
    /// Java data.
    Deny(usize),
    /// The object matches no variant.
    NoMatch,
}

impl ScanStep {
    /// Whether the step is a check.
    pub fn is_check(&self) -> (r: bool)
        ensures
            r == (*self is Check),
    {
        match self {
            ScanStep::Check(_) => true,
            _ => false,
        }
    }
}

/// Where the scan over the variants from index `i` on ends, when `found[j]`
/// tells whether the object matches variant `j` and `deny[j]` whether
/// variant `j` is refused: at the first variant that matches.
pub open spec fn scan_outcome(deny: Seq<bool>, found: Seq<bool>, i: int) -> ScanStep
    decreases found.len() - i,
{
    if i < 0 || i >= found.len() {
        ScanStep::NoMatch
    } else if found[i] {
        if deny[i] { ScanStep::Deny(i as usize) } else { ScanStep::Select(i as usize) }
    } else {
        scan_outcome(deny, found, i + 1)
    }
}

/// The number of variants that the scan from index `i` on checks.
pub open spec fn checks_made(found: Seq<bool>, i: int) -> nat
    decreases found.len() - i,
{
    if i < 0 || i >= found.len() {
        0
    } else if found[i] {
        1
    } else {
        1 + checks_made(found, i + 1)
    }
}

/// The first step of a scan over `count` variants.
pub fn first_check(count: usize) -> (r: ScanStep)
    ensures
        r == if count > 0 { ScanStep::Check(0) } else { ScanStep::NoMatch },
{
    if count > 0 {
        ScanStep::Check(0)
    } else {
        ScanStep::NoMatch
    }
}

/// The step after the check of variant `index`, which `found` tells the
/// outcome of: that variant when it matched, else the next one, else no
/// match.
pub fn scan_step(deny: &Vec<bool>, index: usize, found: bool) -> (r: ScanStep)
    requires
        index < deny@.len(),
    ensures
        r == if found {
            if deny@[index as int] { ScanStep::Deny(index) } else { ScanStep::Select(index) }
        } else if index + 1 < deny@.len() {
            ScanStep::Check((index + 1) as usize)
        } else {
            ScanStep::NoMatch
        },
{
    if found {
        if deny[index] {
            ScanStep::Deny(index)
        } else {
            ScanStep::Select(index)
        }
    } else if index < deny.len() - 1 {
        ScanStep::Check(index + 1)
    } else {
        ScanStep::NoMatch
    }
}

/// Runs the scan over variants whose checks give `found`, and returns where
/// it ends and how many checks it made.
pub fn run_scan(deny: &Vec<bool>, found: &Vec<bool>) -> (r: (ScanStep, usize))
    requires
        deny@.len() == found@.len(),
    ensures
        r.0 == scan_outcome(deny@, found@, 0),
        r.1 == checks_made(found@, 0),
{
    let mut step = first_check(deny.len());
    let mut checks: usize = 0;
    while step.is_check()
        invariant
            deny@.len() == found@.len(),
            match step {
                ScanStep::Check(i) => i < found@.len() && checks == i
                    && scan_outcome(deny@, found@, 0) == scan_outcome(deny@, found@, i as int)
                    && checks_made(found@, 0) == i + checks_made(found@, i as int),
                _ => step == scan_outcome(deny@, found@, 0) && checks == checks_made(found@, 0),
            },
        decreases
            match step {
                ScanStep::Check(i) => found@.len() - i + 1,
                _ => 0,
            },
    {
        match step {
            ScanStep::Check(i) => {
                let f = found[i];
                assert(scan_outcome(deny@, found@, i as int) == if f {
                    if deny@[i as int] { ScanStep::Deny(i) } else { ScanStep::Select(i) }
                } else {
                    scan_outcome(deny@, found@, i + 1)
                });
                assert(checks_made(found@, i as int) == if f { 1 } else { 1 + checks_made(found@, i + 1) });
                assert(i + 1 >= found@.len() ==> scan_outcome(deny@, found@, i + 1) == ScanStep::NoMatch);
                assert(i + 1 >= found@.len() ==> checks_made(found@, i + 1) == 0);
                assert(checks < found.len());
                step = scan_step(deny, i, f);
                checks = checks + 1;
            },
            _ => {},
        }
    }
    (step, checks)
}

} // verus!
