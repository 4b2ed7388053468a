use vstd::prelude::*;
use crate::attributes::{ConfigKey, JnixAttributes};
use crate::text::{
    class_signature, class_signature_of, object_signature, split, split_at_first, split_once,
    split_pieces, str_eq, to_string, trim, trimmed,
};
use crate::types::{names_ident, used_in, used_in_bounds, used_in_list, TypeBound, TypeError, TypeExpr};

verus! {

/// The name and bound signature that one `T: pkg.Class` entry of a bounds
/// directive gives, when it holds a `:`.
pub open spec fn parsed_bound(entry: Seq<char>) -> Option<(Seq<char>, Seq<char>)> {
    match split_once(entry, ':') {
        Some(parts) => Some((trimmed(parts.0), class_signature_of(trimmed(parts.1)))),
        None => None,
    }
}

/// The signature that the last entry for `name` among `entries` gives.
pub open spec fn last_bound(entries: Seq<Seq<char>>, name: Seq<char>) -> Option<Seq<char>>
    decreases entries.len(),
{
    if entries.len() == 0 {
        None
    } else {
        match parsed_bound(entries.last()) {
            Some(b) if b.0 == name => Some(b.1),
            _ => last_bound(entries.drop_last(), name),
        }
    }
}

/// The erasure signature of the parameter `name` under the bounds directive
/// `bounds`: the bound that the directive gives it last, and the signature of
/// `java.lang.Object` where it gives none.
pub open spec fn declared_bound(bounds: Option<Seq<char>>, name: Seq<char>) -> Seq<char> {
    match bounds {
        Some(s) => match last_bound(split_pieces(s, ','), name) {
            Some(sig) => sig,
            None => object_signature(),
        },
        None => object_signature(),
    }
}

/// The signature paired with the first of `names` from index `i` on that is
/// `name`.
pub open spec fn lookup(names: Seq<Seq<char>>, sigs: Seq<Seq<char>>, name: Seq<char>, i: int) -> Option<Seq<char>>
    decreases names.len() - i,
{
    if i < 0 || i >= names.len() {
        None
    } else if names[i] == name {
        Some(sigs[i])
    } else {
        lookup(names, sigs, name, i + 1)
    }
}

/// The generic type parameters of a type, each with the signature that a
/// value of it is erased to.
pub struct TypeParameters {
    names: Vec<String>,
    bounds: Vec<String>,
}

impl TypeParameters {
    /// The names of the parameters, in declaration order.
    pub closed spec fn names(&self) -> Seq<Seq<char>> {
        self.names@.map_values(|s: String| s@)
    }

    /// The erasure signatures, one per parameter.
    pub closed spec fn sigs(&self) -> Seq<Seq<char>> {
        self.bounds@.map_values(|s: String| s@)
    }

    pub closed spec fn wf(&self) -> bool {
        self.names@.len() == self.bounds@.len()
    }

    /// The erasure signature of the parameter `name`, if it is one.
    pub open spec fn bound(&self, name: Seq<char>) -> Option<Seq<char>> {
        lookup(self.names(), self.sigs(), name, 0)
    }

    /// The parameters `types`, with the bounds that the directive `bounds`
    /// gives them.
    pub fn collect_type_bounds(types: &Vec<String>, bounds: &Option<String>) -> (r: Self)
        ensures
            r.wf(),
            r.names() == types@.map_values(|s: String| s@),
            r.sigs().len() == types@.len(),
            forall|i: int| 0 <= i < types@.len() ==> #[trigger] r.sigs()[i] == declared_bound(
                crate::attributes::opt_view(*bounds),
                types@[i]@,
            ),
    {
        let ghost attr = crate::attributes::opt_view(*bounds);
        let entries: Vec<Option<(String, String)>> = match bounds {
            Some(s) => {
                let pieces = split(s.as_str(), ',');
                let mut parsed: Vec<Option<(String, String)>> = Vec::new();
                let mut i: usize = 0;
                while i < pieces.len()
                    invariant
                        i <= pieces.len(),
                        parsed@.len() == i,
                        forall|j: int| 0 <= j < i ==> opt_pair_view(#[trigger] parsed@[j]) == parsed_bound(pieces@[j]@),
                    decreases pieces.len() - i,
                {
                    parsed.push(Self::parse_bounds_for_one_type(pieces[i].as_str()));
                    i = i + 1;
                }
                assert(pieces@.map_values(|p: String| p@).len() == parsed@.len());
                parsed
            },
            None => Vec::new(),
        };
        let ghost raw: Seq<Seq<char>> = match attr {
            Some(s) => split_pieces(s, ','),
            None => Seq::empty(),
        };
        assert(entries@.len() == raw.len() && forall|j: int| 0 <= j < raw.len() ==> opt_pair_view(#[trigger] entries@[j]) == parsed_bound(raw[j])) by {
            if bounds.is_some() {
                assert(forall|j: int| 0 <= j < raw.len() ==> raw[j] == #[trigger] split_pieces(attr->Some_0, ',')[j]);
            }
        }
        let mut names: Vec<String> = Vec::new();
        let mut sigs: Vec<String> = Vec::new();
        let mut t: usize = 0;
        while t < types.len()
            invariant
                t <= types.len(),
                entries@.len() == raw.len(),
                forall|j: int| 0 <= j < raw.len() ==> opt_pair_view(#[trigger] entries@[j]) == parsed_bound(raw[j]),
                attr is None ==> raw.len() == 0,
                attr is Some ==> raw == split_pieces(attr->Some_0, ','),
                names@.len() == t,
                sigs@.len() == t,
                forall|j: int| 0 <= j < t ==> #[trigger] names@[j]@ == types@[j]@,
                forall|j: int| 0 <= j < t ==> #[trigger] sigs@[j]@ == declared_bound(attr, types@[j]@),
            decreases types.len() - t,
        {
            let name = types[t].as_str();
            let mut found: Option<String> = None;
            let mut k: usize = 0;
            assert(raw.subrange(0, 0).len() == 0);
            while k < entries.len()
                invariant
                    k <= entries.len(),
                    entries@.len() == raw.len(),
                    forall|j: int| 0 <= j < raw.len() ==> opt_pair_view(#[trigger] entries@[j]) == parsed_bound(raw[j]),
                    crate::attributes::opt_view(found) == last_bound(raw.subrange(0, k as int), name@),
                decreases entries.len() - k,
            {
                assert(raw.subrange(0, k + 1).drop_last() == raw.subrange(0, k as int));
                assert(raw.subrange(0, k + 1).last() == raw[k as int]);
                match &entries[k] {
                    Some(pair) => {
                        if str_eq(pair.0.as_str(), name) {
                            found = Some(to_string(pair.1.as_str()));
                        }
                    },
                    None => {},
                }
                k = k + 1;
            }
            assert(raw.subrange(0, raw.len() as int) == raw);
            let sig = match found {
                Some(s) => s,
                None => object(),
            };
            names.push(to_string(name));
            sigs.push(sig);
            t = t + 1;
        }
        let r = TypeParameters { names, bounds: sigs };
        assert(r.names() =~= types@.map_values(|s: String| s@));
        r
    }

    /// The name and bound signature of one `T: pkg.Class` entry.
    pub fn parse_bounds_for_one_type(entry: &str) -> (r: Option<(String, String)>)
        ensures
            opt_pair_view(r) == parsed_bound(entry@),
    {
        match split_at_first(entry, ':') {
            Some(parts) => {
                let name = trim(parts.0.as_str());
                let class = trim(parts.1.as_str());
                Some((name, class_signature(class.as_str())))
            },
            None => None,
        }
    }

    /// Whether the type has no generic type parameters.
    pub fn is_empty(&self) -> (r: bool)
        requires
            self.wf(),
        ensures
            r == (self.names().len() == 0),
    {
        self.names.len() == 0
    }

    /// The same parameters and bounds.
    pub fn duplicate(&self) -> (r: Self)
        requires
            self.wf(),
        ensures
            r.wf(),
            r.names() == self.names(),
            r.sigs() == self.sigs(),
    {
        let mut names: Vec<String> = Vec::new();
        let mut bounds: Vec<String> = Vec::new();
        let mut i: usize = 0;
        while i < self.names.len()
            invariant
                self.wf(),
                i <= self.names.len(),
                names@.len() == i,
                bounds@.len() == i,
                forall|j: int| 0 <= j < i ==> #[trigger] names@[j]@ == self.names@[j]@,
                forall|j: int| 0 <= j < i ==> #[trigger] bounds@[j]@ == self.bounds@[j]@,
            decreases self.names.len() - i,
        {
            names.push(to_string(self.names[i].as_str()));
            bounds.push(to_string(self.bounds[i].as_str()));
            i = i + 1;
        }
        let r = TypeParameters { names, bounds };
        assert(r.names() =~= self.names());
        assert(r.sigs() =~= self.sigs());
        r
    }

    /// The erasure signature of the parameter `name`, if it is one.
    pub fn bound_for(&self, name: &str) -> (r: Option<String>)
        requires
            self.wf(),
        ensures
            crate::attributes::opt_view(r) == self.bound(name@),
    {
        let mut i: usize = 0;
        while i < self.names.len()
            invariant
                self.wf(),
                i <= self.names.len(),
                self.bound(name@) == lookup(self.names(), self.sigs(), name@, i as int),
            decreases self.names.len() - i,
        {
            if str_eq(self.names[i].as_str(), name) {
                return Some(to_string(self.bounds[i].as_str()));
            }
            i = i + 1;
        }
        None
    }

    /// Whether `id` names one of the parameters.
    pub fn contains_path(&self, id: &Option<String>) -> (r: bool)
        requires
            self.wf(),
        ensures
            r == names_ident(self.names(), *id),
    {
        match id {
            Some(n) => self.has_name(n.as_str()),
            None => false,
        }
    }

    /// Whether `name` is one of the parameters.
    pub fn has_name(&self, name: &str) -> (r: bool)
        requires
            self.wf(),
        ensures
            r == self.names().contains(name@),
    {
        let mut i: usize = 0;
        while i < self.names.len()
            invariant
                self.wf(),
                i <= self.names.len(),
                forall|j: int| 0 <= j < i ==> self.names()[j] != name@,
            decreases self.names.len() - i,
        {
            if str_eq(self.names[i].as_str(), name) {
                assert(self.names()[i as int] == name@);
                return true;
            }
            i = i + 1;
        }
        false
    }

    /// Whether a trait bound in `bounds` names one of the parameters.
    pub fn is_used_in_bounds(&self, bounds: &Vec<TypeBound>) -> (r: bool)
        requires
            self.wf(),
        ensures
            r == used_in_bounds(bounds@, self.names()),
    {
        let mut i: usize = 0;
        while i < bounds.len()
            invariant
                self.wf(),
                i <= bounds.len(),
                forall|j: int| 0 <= j < i ==> match #[trigger] bounds@[j] {
                    TypeBound::Trait(id) => !names_ident(self.names(), id),
                    TypeBound::Lifetime => true,
                },
            decreases bounds.len() - i,
        {
            match &bounds[i] {
                TypeBound::Trait(id) => {
                    if self.contains_path(id) {
                        return true;
                    }
                },
                TypeBound::Lifetime => {},
            }
            i = i + 1;
        }
        false
    }

    /// Whether `t` mentions one of the parameters; an error where a part of
    /// `t` that is looked at cannot be checked.
    pub fn is_used_in_type(&self, t: &TypeExpr) -> (r: Result<bool, TypeError>)
        requires
            self.wf(),
        ensures
            r == used_in(*t, self.names()),
        decreases t, 0int,
    {
        match t {
            TypeExpr::Never => Ok(false),
            TypeExpr::Path(id, args) => if self.contains_path(id) {
                Ok(true)
            } else {
                self.is_used_in_list(args, 0)
            },
            TypeExpr::Array(e) => self.is_used_in_type(e),
            TypeExpr::Group(e) => self.is_used_in_type(e),
            TypeExpr::Paren(e) => self.is_used_in_type(e),
            TypeExpr::Ptr(e) => self.is_used_in_type(e),
            TypeExpr::Reference(e) => self.is_used_in_type(e),
            TypeExpr::Slice(e) => self.is_used_in_type(e),
            TypeExpr::Tuple(elems) => self.is_used_in_list(elems, 0),
            TypeExpr::ImplTrait(bounds) => Ok(self.is_used_in_bounds(bounds)),
            TypeExpr::TraitObject(bounds) => Ok(self.is_used_in_bounds(bounds)),
            TypeExpr::BareFn(inputs, output) => match self.is_used_in_list(inputs, 0) {
                Ok(false) => match output {
                    Some(o) => self.is_used_in_type(o),
                    None => Ok(false),
                },
                other => other,
            },
            TypeExpr::Infer => Err(TypeError::Infer),
            TypeExpr::Macro => Err(TypeError::Macro),
            TypeExpr::Verbatim => Err(TypeError::Verbatim),
            TypeExpr::Other => Err(TypeError::Unknown),
        }
    }

    fn is_used_in_list(&self, ts: &Vec<TypeExpr>, i: usize) -> (r: Result<bool, TypeError>)
        requires
            self.wf(),
        ensures
            r == used_in_list(ts@, self.names(), i as int),
        decreases ts@, ts@.len() - i,
    {
        if i >= ts.len() {
            Ok(false)
        } else {
            match self.is_used_in_type(&ts[i]) {
                Ok(false) => self.is_used_in_list(ts, i + 1),
                other => other,
            }
        }
    }

    /// The signature that a value of type `t` is erased to: the bound of the
    /// parameter when `t` is one, the signature of `java.lang.Object` when `t`
    /// mentions a parameter in any other way (`&T`, `Vec<T>`, `(i32, T)`), and
    /// none when it keeps its own.
    pub fn erased_type_for(&self, t: &TypeExpr) -> (r: Result<Option<String>, TypeError>)
        requires
            self.wf(),
        ensures
            match r {
                Ok(o) => erased(*t, self) == Ok::<Option<Seq<char>>, TypeError>(crate::attributes::opt_view(o)),
                Err(e) => erased(*t, self) == Err::<Option<Seq<char>>, TypeError>(e),
            },
    {
        if let TypeExpr::Path(Some(name), args) = t {
            if args.len() == 0 {
                return Ok(self.bound_for(name.as_str()));
            }
        }
        match self.is_used_in_type(t) {
            Ok(true) => Ok(Some(object())),
            Ok(false) => Ok(None),
            Err(e) => Err(e),
        }
    }
}

/// The signature that a value of type `t` is erased to under the parameters
/// `tp`, or none where it keeps its own.
pub open spec fn erased(t: TypeExpr, tp: &TypeParameters) -> Result<Option<Seq<char>>, TypeError> {
    match t {
        TypeExpr::Path(Some(name), args) if args@.len() == 0 => Ok(tp.bound(name@)),
        _ => match used_in(t, tp.names()) {
            Ok(true) => Ok(Some(object_signature())),
            Ok(false) => Ok(None),
            Err(e) => Err(e),
        },
    }
}

/// The view of an optional pair of strings.
pub open spec fn opt_pair_view(o: Option<(String, String)>) -> Option<(Seq<char>, Seq<char>)> {
    match o {
        Some(p) => Some((p.0@, p.1@)),
        None => None,
    }
}

/// The signature of `java.lang.Object`.
pub fn object() -> (r: String)
    ensures
        r@ == object_signature(),
{
    let r = String::from_str("Ljava/lang/Object;");
    proof {
        reveal_strlit("Ljava/lang/Object;");
    }
    assert(r@ =~= object_signature());
    r
}

/// The generic parameters of a type declaration and the bounds that its
/// configuration gives them.
pub struct ParsedGenerics {
    type_bounds: TypeParameters,
}

impl ParsedGenerics {
    /// The parameters whose names `type_params` lists, in declaration order.
    pub closed spec fn parameters(&self) -> TypeParameters {
        self.type_bounds
    }

    /// Reads the type parameters `type_params` and the `bounds` directive of
    /// `attributes`.
    pub fn new(type_params: &Vec<String>, attributes: &JnixAttributes) -> (r: Self)
        ensures
            r.parameters().wf(),
            r.parameters().names() == type_params@.map_values(|s: String| s@),
            r.parameters().sigs().len() == type_params@.len(),
            forall|i: int| 0 <= i < type_params@.len() ==> #[trigger] r.parameters().sigs()[i]
                == declared_bound(attributes.value(ConfigKey::Bounds), type_params@[i]@),
    {
        let bounds = attributes.get(ConfigKey::Bounds);
        let type_bounds = TypeParameters::collect_type_bounds(type_params, &bounds);
        ParsedGenerics { type_bounds }
    }

    /// The parameters with their erasure signatures, borrowed.
    pub fn parameters_ref(&self) -> (r: &TypeParameters)
        ensures
            *r == self.parameters(),
    {
        &self.type_bounds
    }

    /// The parameters with their erasure signatures.
    pub fn type_parameters(&self) -> (r: TypeParameters)
        requires
            self.parameters().wf(),
        ensures
            r.wf(),
            r.names() == self.parameters().names(),
            r.sigs() == self.parameters().sigs(),
    {
        self.type_bounds.duplicate()
    }
}

} // verus!
