//! What the code generators read from their input: the arguments of a method
//! signature, a list of type names, and the shape of a type that names an
//! integer. The generators hand these over as plain values and build their
//! output from what comes back.

use vstd::prelude::*;
use crate::strs::texts;
use crate::text::chars_of;

verus! {

/// An argument of a function signature: the `self` receiver, or an argument
/// given by a pattern and a type.
#[derive(PartialEq, Eq, Structural, Clone, Copy, Debug)]
pub enum FnArg {
    Receiver,
    Typed,
}

/// The positions, in order, of the arguments of `args` given by a pattern.
pub open spec fn typed_positions(args: Seq<FnArg>) -> Seq<usize>
    decreases args.len(),
{
    if args.len() == 0 {
        seq![]
    } else if args.last() == FnArg::Typed {
        typed_positions(args.drop_last()).push((args.len() - 1) as usize)
    } else {
        typed_positions(args.drop_last())
    }
}

/// The arguments a wrapper forwards to a method: the positions of all the
/// arguments of `args` but the receiver.
pub fn method_args(args: &Vec<FnArg>) -> (r: Vec<usize>)
    ensures
        r@ == typed_positions(args@),
{
    let mut r: Vec<usize> = Vec::new();
    let mut i: usize = 0;
    while i < args.len()
        invariant
            i <= args@.len(),
            r@ == typed_positions(args@.take(i as int)),
        decreases args@.len() - i,
    {
        assert(args@.take(i + 1).drop_last() =~= args@.take(i as int));
        assert(args@.take(i + 1).last() == args@[i as int]);
        if args[i] == FnArg::Typed {
            r.push(i);
        }
        i = i + 1;
    }
    assert(args@.take(args@.len() as int) =~= args@);
    r
}

/// A token of a list of types: a name, a punctuation character, or anything
/// else (a literal or a group).
#[derive(PartialEq, Eq, Debug)]
pub enum TypeToken {
    Ident(String),
    Punct(char),
    Other,
}

/// Position of the first token of `ts` that is neither a name nor a
/// punctuation character.
pub open spec fn first_unexpected(ts: Seq<TypeToken>) -> Option<int>
    decreases ts.len(),
{
    if ts.len() == 0 {
        None
    } else if ts[0] is Other {
        Some(0)
    } else {
        match first_unexpected(ts.drop_first()) {
            Some(k) => Some(k + 1),
            None => None,
        }
    }
}

/// The names among `ts`, in order.
pub open spec fn names_of(ts: Seq<TypeToken>) -> Seq<Seq<char>>
    decreases ts.len(),
{
    if ts.len() == 0 {
        seq![]
    } else {
        match ts.last() {
            TypeToken::Ident(n) => names_of(ts.drop_last()).push(n@),
            _ => names_of(ts.drop_last()),
        }
    }
}

proof fn lemma_first_unexpected(ts: Seq<TypeToken>, i: int)
    requires
        0 <= i <= ts.len(),
        forall|j: int| 0 <= j < i ==> !(#[trigger] ts[j] is Other),
    ensures
        i < ts.len() && ts[i] is Other ==> first_unexpected(ts) == Some(i),
        i == ts.len() ==> first_unexpected(ts) is None,
    decreases i,
{
    if i > 0 {
        assert forall|j: int| 0 <= j < i - 1 implies !(#[trigger] ts.drop_first()[j] is Other) by {
            assert(ts.drop_first()[j] == ts[j + 1]);
        }
        lemma_first_unexpected(ts.drop_first(), i - 1);
    } else if ts.len() > 0 {
    }
}

/// The type names listed in a macro's input.
pub struct Types {
    pub type_list: Vec<String>,
}

impl Types {
    /// Reads a list of types: every name is a type, punctuation between them is
    /// skipped, and anything else is refused with its position.
    pub fn parse(tokens: &Vec<TypeToken>) -> (r: Result<Types, usize>)
        ensures
            match first_unexpected(tokens@) {
                Some(i) => r == Err::<Types, usize>(i as usize),
                None => r matches Ok(t) && texts(t.type_list@) == names_of(tokens@),
            },
    {
        let mut type_list: Vec<String> = Vec::new();
        let mut i: usize = 0;
        while i < tokens.len()
            invariant
                i <= tokens@.len(),
                forall|j: int| 0 <= j < i ==> !(#[trigger] tokens@[j] is Other),
                texts(type_list@) == names_of(tokens@.take(i as int)),
            decreases tokens@.len() - i,
        {
            assert(tokens@.take(i + 1).drop_last() =~= tokens@.take(i as int));
            assert(tokens@.take(i + 1).last() == tokens@[i as int]);
            match &tokens[i] {
                TypeToken::Ident(name) => {
                    let ghost before = texts(type_list@);
                    type_list.push(name.clone());
                    assert(texts(type_list@) =~= before.push(name@));
                },
                TypeToken::Punct(_) => {},
                TypeToken::Other => {
                    proof {
                        lemma_first_unexpected(tokens@, i as int);
                    }
                    return Err(i);
                },
            }
            i = i + 1;
        }
        proof {
            lemma_first_unexpected(tokens@, i as int);
        }
        assert(tokens@.take(tokens@.len() as int) =~= tokens@);
        Ok(Types { type_list })
    }

    /// The types of the list, in order.
    pub fn iter(&self) -> (r: &Vec<String>)
        ensures
            r == &self.type_list,
    {
        &self.type_list
    }
}

/// One segment of a type's path: its name, and whether generic or function
/// arguments follow it.
pub struct SegmentShape {
    pub ident: String,
    pub has_arguments: bool,
}

/// What a type is, as far as naming an integer goes: a path (with or without
/// a qualified self type or a leading `::`), or something else.
pub enum TypeShape {
    Path { qualified: bool, leading_colon: bool, segments: Vec<SegmentShape> },
    Other,
}

/// Why a type does not name an integer.
#[derive(PartialEq, Eq, Structural, Clone, Copy, Debug)]
pub enum UnwrapError {
    /// The type is not a plain path.
    NotPlainPath,
    /// The first segment of the path carries arguments.
    HasArguments,
}

/// A plain path: no qualified self type and no leading `::`.
pub open spec fn plain_path(ty: TypeShape) -> bool {
    ty matches TypeShape::Path { qualified: false, leading_colon: false, .. }
}

/// The name of the integer type `ty` stands for: the name of the first segment
/// of a plain path whose first segment has no arguments.
pub fn unwrap_primitive(ty: &TypeShape) -> (r: Result<String, UnwrapError>)
    requires
        plain_path(*ty) ==> ty->segments@.len() > 0,
    ensures
        !plain_path(*ty) ==> r == Err::<String, UnwrapError>(UnwrapError::NotPlainPath),
        plain_path(*ty) && ty->segments@[0].has_arguments ==> r == Err::<String, UnwrapError>(
            UnwrapError::HasArguments,
        ),
        plain_path(*ty) && !ty->segments@[0].has_arguments ==> (r matches Ok(n) && n@
            == ty->segments@[0].ident@),
{
    match ty {
        TypeShape::Path { qualified: false, leading_colon: false, segments } => {
            let first = &segments[0];
            if first.has_arguments {
                Err(UnwrapError::HasArguments)
            } else {
                Ok(first.ident.clone())
            }
        },
        _ => Err(UnwrapError::NotPlainPath),
    }
}

/// Whether the integer type named `name` is taken to be unsigned: its name
/// holds a `u`. A signed one needs the sign of its lowest digit dropped.
pub fn unsigned_type_name(name: &str) -> (b: bool)
    ensures
        b == name@.contains('u'),
{
    let cs = chars_of(name);
    let mut i: usize = 0;
    while i < cs.len()
        invariant
            i <= cs@.len(),
            cs@ == name@,
            forall|j: int| 0 <= j < i ==> cs@[j] != 'u',
        decreases cs@.len() - i,
    {
        if cs[i] == 'u' {
            assert(cs@[i as int] == 'u');
            return true;
        }
        i = i + 1;
    }
    false
}

} // verus!
