use crux_cli::format::Format;
use crux_cli::model::{GenericArg, GenericArgs, Id, Path, Type};
use crux_cli::translate::{path_to_string, translate_primitive};

fn path(name: &str, args: Option<GenericArgs>) -> Type {
    Type::ResolvedPath(Path { name: name.to_string(), id: Id(0), args })
}

fn angle(args: Vec<GenericArg>) -> Option<GenericArgs> {
    Some(GenericArgs::AngleBracketed { args })
}

fn primitive(name: &str) -> Type {
    Type::Primitive(name.to_string())
}

#[test]
fn option_of_string() {
    let type_ = path("Option", angle(vec![GenericArg::Type(path("String", angle(vec![])))]));
    assert_eq!(Format::from_type(&type_), Some(Format::Option(Box::new(Format::Str))));
}

#[test]
fn vec_of_bytes() {
    let type_ = path("Vec", angle(vec![GenericArg::Type(primitive("u8"))]));
    assert_eq!(Format::from_type(&type_), Some(Format::Sequence(Box::new(Format::U8))));
}

#[test]
fn tuple_of_primitives() {
    let type_ = Type::Tuple(vec![primitive("i32"), primitive("bool")]);
    assert_eq!(Format::from_type(&type_), Some(Format::Tuple(vec![Format::I32, Format::Bool])));
    assert_eq!(Format::from_type(&Type::Tuple(vec![])), Some(Format::Tuple(vec![])));
}

#[test]
fn string_with_and_without_arguments() {
    assert_eq!(Format::from_type(&path("String", None)), Some(Format::Str));
    assert_eq!(Format::from_type(&path("String", angle(vec![]))), Some(Format::Str));
}

#[test]
fn other_paths_are_named_by_their_last_segment() {
    assert_eq!(
        Format::from_type(&path("crate::app::Event", None)),
        Some(Format::TypeName("Event".to_string()))
    );
    assert_eq!(
        Format::from_type(&path("HashMap", angle(vec![GenericArg::Type(primitive("u8"))]))),
        Some(Format::TypeName("HashMap".to_string()))
    );
    assert_eq!(Format::from_type(&path("Option", None)), Some(Format::TypeName("Option".to_string())));
    assert_eq!(
        Format::from_type(&path("std::option::Option", angle(vec![GenericArg::Type(primitive("u8"))]))),
        Some(Format::TypeName("Option".to_string()))
    );
    let named = Path { name: "a::b::C".to_string(), id: Id(3), args: None };
    assert_eq!(path_to_string(&named), "C");
}

#[test]
fn qualified_paths_are_named_by_their_name() {
    let type_ = Type::QualifiedPath {
        name: "Output".to_string(),
        args: None,
        self_type: Box::new(primitive("u8")),
    };
    assert_eq!(Format::from_type(&type_), Some(Format::TypeName("Output".to_string())));
}

#[test]
fn every_primitive() {
    assert_eq!(translate_primitive("bool"), Some(Format::Bool));
    assert_eq!(translate_primitive("char"), Some(Format::Char));
    assert_eq!(translate_primitive("i8"), Some(Format::I8));
    assert_eq!(translate_primitive("i16"), Some(Format::I16));
    assert_eq!(translate_primitive("i32"), Some(Format::I32));
    assert_eq!(translate_primitive("i64"), Some(Format::I64));
    assert_eq!(translate_primitive("i128"), Some(Format::I128));
    assert_eq!(translate_primitive("u8"), Some(Format::U8));
    assert_eq!(translate_primitive("u16"), Some(Format::U16));
    assert_eq!(translate_primitive("u32"), Some(Format::U32));
    assert_eq!(translate_primitive("u64"), Some(Format::U64));
    assert_eq!(translate_primitive("u128"), Some(Format::U128));
    assert_eq!(translate_primitive("str"), None);
    assert_eq!(translate_primitive("never"), None);
    assert_eq!(translate_primitive(""), None);
}

#[test]
fn pointer_sized_integers_follow_the_host() {
    let (signed, unsigned) = if usize::BITS == 32 {
        (Format::I32, Format::U32)
    } else {
        (Format::I64, Format::U64)
    };
    assert_eq!(translate_primitive("isize"), Some(signed));
    assert_eq!(translate_primitive("usize"), Some(unsigned));
}

#[test]
fn unsupported_shapes_have_no_format() {
    assert_eq!(Format::from_type(&Type::Other), None);
    assert_eq!(Format::from_type(&Type::Slice(Box::new(primitive("u8")))), None);
    assert_eq!(Format::from_type(&Type::Array(Box::new(primitive("u8")))), None);
    assert_eq!(
        Format::from_type(&path("Fn", Some(GenericArgs::Parenthesized { inputs: vec![] }))),
        None
    );
    assert_eq!(Format::from_type(&path("Option", angle(vec![]))), None);
    assert_eq!(Format::from_type(&path("Vec", angle(vec![GenericArg::Other]))), None);
    assert_eq!(
        Format::from_type(&path("Option", angle(vec![GenericArg::Type(Type::Other)]))),
        None
    );
    assert_eq!(Format::from_type(&Type::Tuple(vec![primitive("u8"), Type::Other])), None);
    assert_eq!(Format::from_type(&Type::Tuple(vec![Type::Other, primitive("u8")])), None);
}

#[test]
fn nested_containers() {
    let type_ = path(
        "Vec",
        angle(vec![GenericArg::Type(path(
            "Option",
            angle(vec![GenericArg::Type(Type::Tuple(vec![
                path("String", None),
                path("my::Thing", None),
            ]))]),
        ))]),
    );
    assert_eq!(
        Format::from_type(&type_),
        Some(Format::Sequence(Box::new(Format::Option(Box::new(Format::Tuple(vec![
            Format::Str,
            Format::TypeName("Thing".to_string()),
        ]))))))
    );
}

#[test]
fn copies_are_equal() {
    let format = Format::Tuple(vec![
        Format::Option(Box::new(Format::TypeName("A".to_string()))),
        Format::Sequence(Box::new(Format::Bytes)),
        Format::Tuple(vec![]),
    ]);
    assert_eq!(format.duplicate(), format);
}
