use vstd::prelude::*;

verus! {

/// The shape of a Rust type as the generator needs to see it.
pub enum TypeExpr {
    /// `!`
    Never,
    /// A path: the identifier when the path is one identifier with no
    /// arguments (`T`, `String`), and nothing otherwise (`Vec<T>`, `a::B`);
    /// then the type arguments of its segments, in order (`T` in `Vec<T>`).
    Path(Option<String>, Vec<TypeExpr>),
    /// `[T; N]`
    Array(Box<TypeExpr>),
    /// A type in an invisible group, as macros produce.
    Group(Box<TypeExpr>),
    /// `(T)`
    Paren(Box<TypeExpr>),
    /// `*const T`, `*mut T`
    Ptr(Box<TypeExpr>),
    /// `&T`, `&mut T`
    Reference(Box<TypeExpr>),
    /// `[T]`
    Slice(Box<TypeExpr>),
    /// `(A, B, ...)`
    Tuple(Vec<TypeExpr>),
    /// `impl Bound + ...`
    ImplTrait(Vec<TypeBound>),
    /// `dyn Bound + ...`
    TraitObject(Vec<TypeBound>),
    /// `fn(A, B) -> R`: the parameter types and the return type, if any.
    BareFn(Vec<TypeExpr>, Option<Box<TypeExpr>>),
    /// `_`
    Infer,
    /// A macro invocation in type position.
    Macro,
    /// Tokens that were not parsed into a type.
    Verbatim,
    /// Any other form.
    Other,
}

/// One bound of an `impl` or `dyn` type.
pub enum TypeBound {
    /// A lifetime, such as `'a`.
    Lifetime,
    /// A trait; it holds the identifier when the trait's path is one
    /// identifier.
    Trait(Option<String>),
}

/// Why a type cannot be checked for generic parameters.
#[derive(PartialEq, Eq, Structural, Clone, Copy, Debug)]
pub enum TypeError {
    /// The type is `_`, not inferred yet.
    Infer,
    /// The type is a macro call.
    Macro,
    /// The type is unstructured tokens.
    Verbatim,
    /// The type has a form that is not known.
    Unknown,
}

/// Whether `id` is one of `names`.
pub open spec fn names_ident(names: Seq<Seq<char>>, id: Option<String>) -> bool {
    match id {
        Some(n) => names.contains(n@),
        None => false,
    }
}

/// Whether some trait bound in `bounds` is one of `names`; lifetimes are not.
pub open spec fn used_in_bounds(bounds: Seq<TypeBound>, names: Seq<Seq<char>>) -> bool {
    exists|i: int| 0 <= i < bounds.len() && match #[trigger] bounds[i] {
        TypeBound::Trait(id) => names_ident(names, id),
        TypeBound::Lifetime => false,
    }
}

/// Whether `t` mentions one of `names`, looking through the type arguments of
/// paths, arrays, groups, parentheses, pointers, references, slices, tuples,
/// `impl`/`dyn` bounds and function types; a path mentions a name when it is
/// that name itself or one of its type arguments mentions it.
/// Parts are looked at from left to right, and the first one that mentions a
/// name, or cannot be checked, decides.
pub open spec fn used_in(t: TypeExpr, names: Seq<Seq<char>>) -> Result<bool, TypeError>
    decreases t, 0int,
{
    match t {
        TypeExpr::Never => Ok(false),
        TypeExpr::Path(id, args) => if names_ident(names, id) {
            Ok(true)
        } else {
            used_in_list(args@, names, 0)
        },
        TypeExpr::Array(e) => used_in(*e, names),
        TypeExpr::Group(e) => used_in(*e, names),
        TypeExpr::Paren(e) => used_in(*e, names),
        TypeExpr::Ptr(e) => used_in(*e, names),
        TypeExpr::Reference(e) => used_in(*e, names),
        TypeExpr::Slice(e) => used_in(*e, names),
        TypeExpr::Tuple(elems) => used_in_list(elems@, names, 0),
        TypeExpr::ImplTrait(bounds) => Ok(used_in_bounds(bounds@, names)),
        TypeExpr::TraitObject(bounds) => Ok(used_in_bounds(bounds@, names)),
        TypeExpr::BareFn(inputs, output) => match used_in_list(inputs@, names, 0) {
            Ok(false) => match output {
                Some(o) => used_in(*o, names),
                None => Ok(false),
            },
            other => other,
        },
        TypeExpr::Infer => Err(TypeError::Infer),
        TypeExpr::Macro => Err(TypeError::Macro),
        TypeExpr::Verbatim => Err(TypeError::Verbatim),
        TypeExpr::Other => Err(TypeError::Unknown),
    }
}

/// [`used_in`] over `ts[i..]`, from left to right.
pub open spec fn used_in_list(ts: Seq<TypeExpr>, names: Seq<Seq<char>>, i: int) -> Result<bool, TypeError>
    decreases ts, ts.len() - i,
{
    if i < 0 || i >= ts.len() {
        Ok(false)
    } else {
        match used_in(ts[i], names) {
            Ok(false) => used_in_list(ts, names, i + 1),
            other => other,
        }
    }
}

} // verus!
