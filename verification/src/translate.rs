//! From type expressions to formats.

use vstd::prelude::*;
use crate::format::{tuple_view, views, Format, FormatModel};
use crate::model::{GenericArg, GenericArgs, Path, Type};
use crate::text::{final_segment, last_segment, str_equal};

verus! {

/// What an optional format says.
pub open spec fn opt_model(format: Option<Format>) -> Option<FormatModel> {
    match format {
        Some(format) => Some(format@),
        None => None,
    }
}

/// The format of a primitive type, by its name. `isize` and `usize` have the
/// width of the machine that runs the translation.
pub open spec fn primitive_format(name: Seq<char>) -> Option<FormatModel> {
    if name == "bool"@ {
        Some(FormatModel::Bool)
    } else if name == "char"@ {
        Some(FormatModel::Char)
    } else if name == "isize"@ {
        Some(
            if usize::BITS == 32 {
                FormatModel::I32
            } else {
                FormatModel::I64
            },
        )
    } else if name == "i8"@ {
        Some(FormatModel::I8)
    } else if name == "i16"@ {
        Some(FormatModel::I16)
    } else if name == "i32"@ {
        Some(FormatModel::I32)
    } else if name == "i64"@ {
        Some(FormatModel::I64)
    } else if name == "i128"@ {
        Some(FormatModel::I128)
    } else if name == "usize"@ {
        Some(
            if usize::BITS == 32 {
                FormatModel::U32
            } else {
                FormatModel::U64
            },
        )
    } else if name == "u8"@ {
        Some(FormatModel::U8)
    } else if name == "u16"@ {
        Some(FormatModel::U16)
    } else if name == "u32"@ {
        Some(FormatModel::U32)
    } else if name == "u64"@ {
        Some(FormatModel::U64)
    } else if name == "u128"@ {
        Some(FormatModel::U128)
    } else {
        None
    }
}

/// A machine word has 32 or 64 bits, so `isize` and `usize` always have a
/// format.
pub proof fn machine_words_have_a_format()
    ensures
        usize::BITS == 32 || usize::BITS == 64,
        primitive_format("isize"@) is Some,
        primitive_format("usize"@) is Some,
{
}

/// The format of a type expression; `None` for a shape that has none.
///
/// `String` is `Str`; `Option<T>` and `Vec<T>` wrap the format of `T`; any
/// other resolved path is named by its last segment, a qualified path by its
/// name; a tuple is the tuple of the formats of its parts.
pub open spec fn translated(type_: Type) -> Option<FormatModel>
    decreases type_, 0nat,
{
    match type_ {
        Type::ResolvedPath(path) => match path.args {
            Some(GenericArgs::Parenthesized { .. }) => None,
            Some(GenericArgs::AngleBracketed { args }) => {
                if path.name@ == "String"@ {
                    Some(FormatModel::Str)
                } else if path.name@ == "Option"@ {
                    match first_translated(args) {
                        Some(inner) => Some(FormatModel::Option(Box::new(inner))),
                        None => None,
                    }
                } else if path.name@ == "Vec"@ {
                    match first_translated(args) {
                        Some(inner) => Some(FormatModel::Sequence(Box::new(inner))),
                        None => None,
                    }
                } else {
                    Some(FormatModel::TypeName(final_segment(path.name@)))
                }
            },
            None => {
                if path.name@ == "String"@ {
                    Some(FormatModel::Str)
                } else {
                    Some(FormatModel::TypeName(final_segment(path.name@)))
                }
            },
        },
        Type::Primitive(name) => primitive_format(name@),
        Type::Tuple(types) => match all_translated(types, types@.len()) {
            Some(parts) => Some(FormatModel::Tuple(parts)),
            None => None,
        },
        Type::QualifiedPath { name, .. } => Some(FormatModel::TypeName(name@)),
        _ => None,
    }
}

/// The format of the first generic argument, where that is a type.
pub open spec fn first_translated(args: Vec<GenericArg>) -> Option<FormatModel>
    decreases args, 0nat,
{
    if args@.len() > 0 {
        match args@[0] {
            GenericArg::Type(type_) => translated(type_),
            GenericArg::Other => None,
        }
    } else {
        None
    }
}

/// The formats of the first `upto` types; `None` where one of them has none.
pub open spec fn all_translated(types: Vec<Type>, upto: nat) -> Option<Seq<FormatModel>>
    decreases types, upto,
{
    if upto == 0 || upto > types@.len() {
        Some(Seq::empty())
    } else {
        match (all_translated(types, (upto - 1) as nat), translated(types@[upto - 1])) {
            (Some(before), Some(last)) => Some(before.push(last)),
            _ => None,
        }
    }
}

/// The format of a primitive type, by its name.
pub fn translate_primitive(name: &str) -> (r: Option<Format>)
    ensures
        opt_model(r) == primitive_format(name@),
{
    if str_equal(name, "bool") {
        Some(Format::Bool)
    } else if str_equal(name, "char") {
        Some(Format::Char)
    } else if str_equal(name, "isize") {
        if usize::BITS == 32 {
            Some(Format::I32)
        } else {
            Some(Format::I64)
        }
    } else if str_equal(name, "i8") {
        Some(Format::I8)
    } else if str_equal(name, "i16") {
        Some(Format::I16)
    } else if str_equal(name, "i32") {
        Some(Format::I32)
    } else if str_equal(name, "i64") {
        Some(Format::I64)
    } else if str_equal(name, "i128") {
        Some(Format::I128)
    } else if str_equal(name, "usize") {
        if usize::BITS == 32 {
            Some(Format::U32)
        } else {
            Some(Format::U64)
        }
    } else if str_equal(name, "u8") {
        Some(Format::U8)
    } else if str_equal(name, "u16") {
        Some(Format::U16)
    } else if str_equal(name, "u32") {
        Some(Format::U32)
    } else if str_equal(name, "u64") {
        Some(Format::U64)
    } else if str_equal(name, "u128") {
        Some(Format::U128)
    } else {
        None
    }
}

/// The last segment of the path's name, as a format.
pub fn path_to_format(path: &Path) -> (r: Format)
    ensures
        r@ == FormatModel::TypeName(final_segment(path.name@)),
{
    Format::TypeName(path_to_string(path))
}

/// The last segment of the path's name.
pub fn path_to_string(path: &Path) -> (r: String)
    ensures
        r@ == final_segment(path.name@),
{
    last_segment(path.name.as_str()).to_owned()
}

impl Format {
    /// The format of a type expression; `None` for a shape that has none.
    pub fn from_type(type_: &Type) -> (r: Option<Format>)
        ensures
            opt_model(r) == translated(*type_),
        decreases type_, 0nat,
    {
        match type_ {
            Type::ResolvedPath(path) => {
                let name = path.name.as_str();
                match &path.args {
                    Some(GenericArgs::Parenthesized { .. }) => None,
                    Some(GenericArgs::AngleBracketed { args }) => {
                        if str_equal(name, "String") {
                            Some(Format::Str)
                        } else if str_equal(name, "Option") {
                            match Format::from_first(args) {
                                Some(inner) => Some(Format::Option(Box::new(inner))),
                                None => None,
                            }
                        } else if str_equal(name, "Vec") {
                            match Format::from_first(args) {
                                Some(inner) => Some(Format::Sequence(Box::new(inner))),
                                None => None,
                            }
                        } else {
                            Some(path_to_format(path))
                        }
                    },
                    None => {
                        if str_equal(name, "String") {
                            Some(Format::Str)
                        } else {
                            Some(path_to_format(path))
                        }
                    },
                }
            },
            Type::Primitive(name) => translate_primitive(name.as_str()),
            Type::Tuple(types) => {
                let mut parts: Vec<Format> = Vec::new();
                let mut i: usize = 0;
                while i < types.len()
                    invariant
                        i <= types.len(),
                        *type_ is Tuple,
                        type_->Tuple_0 == *types,
                        all_translated(*types, i as nat) == Some(views(parts@)),
                    decreases types.len() - i,
                {
                    proof {
                        assert(decreases_to!(*type_ => type_->Tuple_0@[i as int]));
                    }
                    match Format::from_type(&types[i]) {
                        Some(part) => {
                            proof {
                                assert(views(parts@.push(part)) =~= views(parts@).push(part@));
                            }
                            parts.push(part);
                        },
                        None => {
                            proof {
                                none_stays_none(*types, i as nat + 1, types@.len());
                            }
                            return None;
                        },
                    }
                    i += 1;
                }
                proof {
                    tuple_view(parts);
                }
                Some(Format::Tuple(parts))
            },
            Type::QualifiedPath { name, .. } => Some(Format::TypeName(name.clone())),
            _ => None,
        }
    }

    /// The format of the first generic argument, where that is a type.
    pub fn from_first(args: &Vec<GenericArg>) -> (r: Option<Format>)
        ensures
            opt_model(r) == first_translated(*args),
        decreases args, 0nat,
    {
        if args.len() > 0 {
            proof {
                assert(decreases_to!(*args => args@[0]));
            }
            match &args[0] {
                GenericArg::Type(type_) => Format::from_type(type_),
                GenericArg::Other => None,
            }
        } else {
            None
        }
    }
}

/// Once a type has no format, no longer list of the types has formats.
pub proof fn none_stays_none(types: Vec<Type>, at: nat, upto: nat)
    requires
        at <= upto <= types@.len(),
        all_translated(types, at) is None,
    ensures
        all_translated(types, upto) is None,
    decreases upto,
{
    if at < upto {
        none_stays_none(types, at, (upto - 1) as nat);
    }
}

} // verus!
