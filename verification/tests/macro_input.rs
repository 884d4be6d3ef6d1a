use oso::macro_input::{
    method_args, unsigned_type_name, unwrap_primitive, FnArg, SegmentShape, TypeShape, TypeToken, Types,
    UnwrapError,
};

/// The arguments of the signature written in `sig`, as the wrapper generator
/// reads them.
fn args_of(sig: &str) -> Vec<FnArg> {
    let sig: syn::Signature = syn::parse_str(sig).unwrap();
    sig.inputs
        .iter()
        .map(|a| if matches!(a, syn::FnArg::Receiver(_)) { FnArg::Receiver } else { FnArg::Typed })
        .collect()
}

#[test]
fn test_method_args_no_receiver() {
    let sig = args_of("fn test_function(arg1: i32, arg2: String, arg3: bool) -> i32");

    let args: Vec<_> = method_args(&sig);
    assert_eq!(args.len(), 3);
}

#[test]
fn test_method_args_with_self_receiver() {
    let sig = args_of("fn test_method(&self, arg1: i32, arg2: String) -> bool");

    let args: Vec<_> = method_args(&sig);
    assert_eq!(args.len(), 2);
}

#[test]
fn test_method_args_with_mut_self_receiver() {
    let sig = args_of("fn test_method(&mut self, arg1: i32) -> ()");

    let args: Vec<_> = method_args(&sig);
    assert_eq!(args.len(), 1);
}

#[test]
fn test_method_args_with_owned_self_receiver() {
    let sig = args_of("fn test_method(self, arg1: String, arg2: Vec<i32>) -> String");

    let args: Vec<_> = method_args(&sig);
    assert_eq!(args.len(), 2);
}

#[test]
fn test_method_args_no_arguments() {
    let sig = args_of("fn test_function() -> ()");

    let args: Vec<_> = method_args(&sig);
    assert_eq!(args.len(), 0);
}

#[test]
fn test_method_args_only_receiver() {
    let sig = args_of("fn test_method(&self) -> i32");

    let args: Vec<_> = method_args(&sig);
    assert_eq!(args.len(), 0);
}

#[test]
fn test_method_args_complex_types() {
    let sig = args_of(
        "fn complex_method(
            &self,
            arg1: Vec<String>,
            arg2: HashMap<String, i32>,
            arg3: Option<Box<dyn Trait>>,
            arg4: &mut [u8]
        ) -> Result<(), Error>",
    );

    let args: Vec<_> = method_args(&sig);
    assert_eq!(args.len(), 4);
}

#[test]
fn test_method_args_pattern_matching() {
    let sig = args_of("fn pattern_method(&self, (x, y): (i32, i32), [a, b, c]: [u8; 3]) -> ()");

    let args: Vec<_> = method_args(&sig);
    assert_eq!(args.len(), 2);
}

#[test]
fn test_method_args_with_lifetimes() {
    let sig = args_of("fn lifetime_method<'a>(&self, arg1: &'a str, arg2: &'a mut Vec<i32>) -> &'a str");

    let args: Vec<_> = method_args(&sig);
    assert_eq!(args.len(), 2);
}

#[test]
fn test_method_args_with_generics() {
    let sig = args_of(
        "fn generic_method<T, U>(&mut self, arg1: T, arg2: Vec<U>) -> Option<T>
        where
            T: Clone,
            U: Debug",
    );

    let args: Vec<_> = method_args(&sig);
    assert_eq!(args.len(), 2);
}

#[test]
fn test_method_args_preserves_pattern_structure() {
    let sig = args_of("fn destructure_method(&self, Point { x, y }: Point, mut z: i32) -> ()");

    let args: Vec<_> = method_args(&sig);
    assert_eq!(args.len(), 2);
}

#[test]
fn method_args_are_the_positions_after_the_receiver() {
    assert_eq!(method_args(&vec![FnArg::Receiver, FnArg::Typed, FnArg::Typed]), vec![1, 2]);
    assert_eq!(method_args(&vec![FnArg::Typed, FnArg::Typed]), vec![0, 1]);
}

fn ident(s: &str) -> TypeToken {
    TypeToken::Ident(s.to_string())
}

#[test]
fn type_list_keeps_the_names_in_order() {
    let tokens = vec![ident("u8"), TypeToken::Punct(','), ident("u16"), TypeToken::Punct(','), ident("i64")];
    let types = Types::parse(&tokens).unwrap();
    assert_eq!(types.iter(), &vec!["u8".to_string(), "u16".to_string(), "i64".to_string()]);
}

#[test]
fn type_list_refuses_a_literal_at_its_position() {
    let tokens = vec![ident("u8"), TypeToken::Punct(','), TypeToken::Other, ident("u16")];
    assert_eq!(Types::parse(&tokens).err(), Some(2));
    assert!(Types::parse(&vec![]).unwrap().iter().is_empty());
}

fn path(segments: &[(&str, bool)]) -> TypeShape {
    TypeShape::Path {
        qualified: false,
        leading_colon: false,
        segments: segments
            .iter()
            .map(|(n, a)| SegmentShape { ident: n.to_string(), has_arguments: *a })
            .collect(),
    }
}

#[test]
fn a_plain_path_names_its_first_segment() {
    assert_eq!(unwrap_primitive(&path(&[("u32", false)])), Ok("u32".to_string()));
    assert_eq!(unwrap_primitive(&path(&[("Vec", true)])), Err(UnwrapError::HasArguments));
    assert_eq!(unwrap_primitive(&TypeShape::Other), Err(UnwrapError::NotPlainPath));
    let rooted = TypeShape::Path {
        qualified: false,
        leading_colon: true,
        segments: vec![SegmentShape { ident: "u8".to_string(), has_arguments: false }],
    };
    assert_eq!(unwrap_primitive(&rooted), Err(UnwrapError::NotPlainPath));
}

#[test]
fn unsigned_names_hold_a_u() {
    assert!(unsigned_type_name("u64"));
    assert!(unsigned_type_name("usize"));
    assert!(!unsigned_type_name("i32"));
    assert!(!unsigned_type_name("isize"));
}
