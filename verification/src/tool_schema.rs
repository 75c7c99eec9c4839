//! The decisions of the tool attribute: the names a tool's items get, the
//! JSON schema type of an argument's Rust type, whether a type is a custom
//! struct, and the reading of the attribute's `key = value` and `arg(...)`
//! entries. Rust syntax itself is read by the macro's parser; this module
//! works on what that parser found.
use vstd::prelude::*;
use crate::text::{cat, owned, split_on, string_of, text_eq, trim};
#[allow(unused_imports)]
use crate::text::{split_text, trim_text};

verus! {

/// The upper case of a character, as `char::to_uppercase` gives it (one or
/// more characters).
pub uninterp spec fn char_upper(c: char) -> Seq<char>;

/// `char::to_uppercase`, collected into a string; the Unicode case mapping
/// is only named here.
#[verifier::external_body]
fn upper_of(c: char) -> (r: String)
    ensures
        r@ == char_upper(c),
{
    c.to_uppercase().collect()
}

/// A part with its first character in upper case.
pub open spec fn capitalized(part: Seq<char>) -> Seq<char> {
    if part.len() == 0 {
        Seq::empty()
    } else {
        char_upper(part[0]) + part.drop_first()
    }
}

/// The parts, each capitalized, one after another.
pub open spec fn joined_capitalized(parts: Seq<Seq<char>>) -> Seq<char>
    decreases parts.len(),
{
    if parts.len() == 0 {
        Seq::empty()
    } else {
        joined_capitalized(parts.drop_last()) + capitalized(parts.last())
    }
}

/// `snake_case` to `PascalCase`: the parts between underscores, each with its
/// first character in upper case.
pub open spec fn pascal_text(s: Seq<char>) -> Seq<char> {
    joined_capitalized(split_text(s, "_"@))
}

/// Convert a `snake_case` name to `PascalCase`.
pub fn to_pascal_case(s: &str) -> (r: String)
    ensures
        r@ == pascal_text(s@),
{
    proof {
        reveal_strlit("_");
    }
    let parts = split_on(s, "_");
    let ghost pv = parts@.map_values(|x: String| x@);
    let mut out = String::new();
    let mut i: usize = 0;
    while i < parts.len()
        invariant
            i <= parts.len(),
            pv == parts@.map_values(|x: String| x@),
            out@ == joined_capitalized(pv.take(i as int)),
        decreases parts.len() - i,
    {
        proof {
            assert(pv.take(i as int + 1).drop_last() =~= pv.take(i as int));
            assert(pv.take(i as int + 1).last() == parts@[i as int]@);
        }
        let chars = crate::text::chars_of(parts[i].as_str());
        if chars.len() > 0 {
            let up = upper_of(chars[0]);
            out.append(up.as_str());
            let rest = crate::text::slice_chars(&chars, 1, chars.len());
            let rest_s = string_of(rest.as_slice());
            out.append(rest_s.as_str());
            proof {
                assert(rest@ =~= parts@[i as int]@.drop_first());
            }
        }
        i = i + 1;
    }
    proof {
        assert(pv.take(parts.len() as int) =~= pv);
    }
    out
}

/// The names of a tool's generated items: the tool's name (the attribute's
/// `name`, else the function's name), its struct (`<Pascal>Tool`), its
/// static value (`<Pascal>`) and its arguments struct (`<Pascal>Args`).
pub struct ToolNames {
    pub tool_name: String,
    pub struct_name: String,
    pub static_name: String,
    pub args_struct_name: String,
}

/// The names of a tool's generated items.
pub fn tool_names(attr_name: Option<String>, fn_name: &str) -> (r: ToolNames)
    ensures
        ({
            let t = match attr_name {
                Some(n) => n@,
                None => fn_name@,
            };
            &&& r.tool_name@ == t
            &&& r.struct_name@ == pascal_text(t) + "Tool"@
            &&& r.static_name@ == pascal_text(t)
            &&& r.args_struct_name@ == pascal_text(t) + "Args"@
        }),
{
    let tool_name = match attr_name {
        Some(n) => n,
        None => owned(fn_name),
    };
    let p = to_pascal_case(tool_name.as_str());
    let struct_name = cat(p.as_str(), "Tool");
    let args_struct_name = cat(p.as_str(), "Args");
    ToolNames { tool_name, struct_name, static_name: p, args_struct_name }
}

/// The description of a tool without one: `"Function to <name>"`.
pub fn default_description(tool_name: &str) -> (r: String)
    ensures
        r@ == "Function to "@ + tool_name@,
{
    cat("Function to ", tool_name)
}

/// The shape of a Rust type, as far as the schema needs it.
pub enum TypeShape {
    /// A path type: the name of its first segment, and the first generic
    /// argument of that segment when there is one and it is a type.
    Path { name: String, first_arg: Option<Box<TypeShape>> },
    /// Any other type (a reference, a tuple, ...).
    Other,
}

/// The JSON schema type of an argument.
pub enum JsonKind {
    /// An array, with the type of its items when known.
    Array(Option<Box<JsonKind>>),
    Number,
    Text,
    Boolean,
    Object,
}

/// The Rust numeric type names that map to a JSON number.
pub open spec fn is_number_name(n: Seq<char>) -> bool {
    n == "i8"@ || n == "i16"@ || n == "i32"@ || n == "i64"@ || n == "u8"@ || n == "u16"@ || n == "u32"@ || n
        == "u64"@ || n == "f32"@ || n == "f64"@
}

/// The JSON schema type of a Rust type: `Vec<T>` is an array of `T`'s type,
/// numbers are numbers, `String` and `str` strings, `bool` booleans, and
/// everything else an object.
pub open spec fn json_kind_of(t: TypeShape) -> JsonKind
    decreases t,
{
    match t {
        TypeShape::Path { name, first_arg } => if name@ == "Vec"@ {
            match first_arg {
                Some(inner) => JsonKind::Array(Some(Box::new(json_kind_of(*inner)))),
                None => JsonKind::Array(None),
            }
        } else if is_number_name(name@) {
            JsonKind::Number
        } else if name@ == "String"@ || name@ == "str"@ {
            JsonKind::Text
        } else if name@ == "bool"@ {
            JsonKind::Boolean
        } else {
            JsonKind::Object
        },
        TypeShape::Other => JsonKind::Object,
    }
}

/// Rust primitives get their JSON schema types: every integer type from
/// `i8` to `i64` and `u8` to `u64`, and `f32` and `f64`, is a number;
/// `String` and `str` are strings; `bool` is a boolean.
pub proof fn lemma_primitive_json_types(name: String, first_arg: Option<Box<TypeShape>>)
    ensures
        name@ == "i8"@ || name@ == "i16"@ || name@ == "i32"@ || name@ == "i64"@ || name@ == "u8"@ || name@ == "u16"@
            || name@ == "u32"@ || name@ == "u64"@ || name@ == "f32"@ || name@ == "f64"@ ==> json_kind_of(
            TypeShape::Path { name, first_arg },
        ) == JsonKind::Number,
        name@ == "String"@ || name@ == "str"@ ==> json_kind_of(TypeShape::Path { name, first_arg })
            == JsonKind::Text,
        name@ == "bool"@ ==> json_kind_of(TypeShape::Path { name, first_arg }) == JsonKind::Boolean,
{
    reveal_strlit("Vec");
    reveal_strlit("i8");
    reveal_strlit("i16");
    reveal_strlit("i32");
    reveal_strlit("i64");
    reveal_strlit("u8");
    reveal_strlit("u16");
    reveal_strlit("u32");
    reveal_strlit("u64");
    reveal_strlit("f32");
    reveal_strlit("f64");
    reveal_strlit("String");
    reveal_strlit("str");
    reveal_strlit("bool");
    let t = TypeShape::Path { name, first_arg };
    assert("Vec"@.len() == 3 && "Vec"@[0] == 'V');
    assert("i8"@.len() == 2 && "u8"@.len() == 2);
    assert("i16"@.len() == 3 && "i16"@[0] == 'i' && "i32"@.len() == 3 && "i32"@[0] == 'i');
    assert("i64"@.len() == 3 && "i64"@[0] == 'i' && "u16"@.len() == 3 && "u16"@[0] == 'u');
    assert("u32"@.len() == 3 && "u32"@[0] == 'u' && "u64"@.len() == 3 && "u64"@[0] == 'u');
    assert("f32"@.len() == 3 && "f32"@[0] == 'f' && "f64"@.len() == 3 && "f64"@[0] == 'f');
    assert("String"@.len() == 6 && "str"@.len() == 3 && "str"@[0] == 's' && "bool"@.len() == 4);
    if is_number_name(name@) {
        assert(name@ != "Vec"@);
        assert(json_kind_of(t) == JsonKind::Number);
    }
    if name@ == "String"@ || name@ == "str"@ {
        assert(name@ != "Vec"@);
        assert(!is_number_name(name@));
        assert(json_kind_of(t) == JsonKind::Text);
    }
    if name@ == "bool"@ {
        assert(name@ != "Vec"@);
        assert(!is_number_name(name@));
        assert(json_kind_of(t) == JsonKind::Boolean);
    }
}

/// `Vec<T>` is an array of `T`'s JSON type (of unknown items without a
/// type argument), and a type that is neither `Vec`, a number, a string nor
/// `bool` (a struct of the caller, a map, an option, ...) is an object.
pub proof fn lemma_compound_json_types(name: String, first_arg: Option<Box<TypeShape>>)
    ensures
        name@ == "Vec"@ ==> json_kind_of(TypeShape::Path { name, first_arg }) == match first_arg {
            Some(inner) => JsonKind::Array(Some(Box::new(json_kind_of(*inner)))),
            None => JsonKind::Array(None),
        },
        !(name@ == "Vec"@ || name@ == "i8"@ || name@ == "i16"@ || name@ == "i32"@ || name@ == "i64"@ || name@
            == "u8"@ || name@ == "u16"@ || name@ == "u32"@ || name@ == "u64"@ || name@ == "f32"@ || name@ == "f64"@
            || name@ == "String"@ || name@ == "str"@ || name@ == "bool"@) ==> json_kind_of(
            TypeShape::Path { name, first_arg },
        ) == JsonKind::Object,
        json_kind_of(TypeShape::Other) == JsonKind::Object,
{
}

/// A standard-library or primitive type is never a custom struct; `Vec<T>`
/// is one exactly when `T` is; any other named type is one.
pub proof fn lemma_custom_structs(name: String, first_arg: Option<Box<TypeShape>>)
    ensures
        (name@ == "i8"@ || name@ == "i16"@ || name@ == "i32"@ || name@ == "i64"@ || name@ == "i128"@ || name@
            == "isize"@ || name@ == "u8"@ || name@ == "u16"@ || name@ == "u32"@ || name@ == "u64"@ || name@ == "u128"@
            || name@ == "usize"@ || name@ == "f32"@ || name@ == "f64"@ || name@ == "bool"@ || name@ == "char"@ || name@
            == "String"@ || name@ == "str"@ || name@ == "Option"@ || name@ == "Result"@ || name@ == "Box"@ || name@
            == "VecDeque"@ || name@ == "HashMap"@ || name@ == "HashSet"@ || name@ == "BTreeMap"@ || name@
            == "BTreeSet"@) ==> !custom_struct(TypeShape::Path { name, first_arg }),
        name@ == "Vec"@ ==> custom_struct(TypeShape::Path { name, first_arg }) == match first_arg {
            Some(inner) => custom_struct(*inner),
            None => false,
        },
        !(name@ == "Vec"@ || is_known_name(name@)) ==> custom_struct(TypeShape::Path { name, first_arg }),
        !custom_struct(TypeShape::Other),
{
    reveal_strlit("Vec");
    assert("Vec"@.len() == 3 && "Vec"@[0] == 'V');
    reveal_strlit("i8");
    assert("i8"@.len() == 2);
    reveal_strlit("i16");
    assert("i16"@.len() == 3 && "i16"@[0] == 'i');
    reveal_strlit("i32");
    assert("i32"@.len() == 3 && "i32"@[0] == 'i');
    reveal_strlit("i64");
    assert("i64"@.len() == 3 && "i64"@[0] == 'i');
    reveal_strlit("i128");
    assert("i128"@.len() == 4);
    reveal_strlit("isize");
    assert("isize"@.len() == 5);
    reveal_strlit("u8");
    assert("u8"@.len() == 2);
    reveal_strlit("u16");
    assert("u16"@.len() == 3 && "u16"@[0] == 'u');
    reveal_strlit("u32");
    assert("u32"@.len() == 3 && "u32"@[0] == 'u');
    reveal_strlit("u64");
    assert("u64"@.len() == 3 && "u64"@[0] == 'u');
    reveal_strlit("u128");
    assert("u128"@.len() == 4);
    reveal_strlit("usize");
    assert("usize"@.len() == 5);
    reveal_strlit("f32");
    assert("f32"@.len() == 3 && "f32"@[0] == 'f');
    reveal_strlit("f64");
    assert("f64"@.len() == 3 && "f64"@[0] == 'f');
    reveal_strlit("bool");
    assert("bool"@.len() == 4);
    reveal_strlit("char");
    assert("char"@.len() == 4);
    reveal_strlit("String");
    assert("String"@.len() == 6);
    reveal_strlit("str");
    assert("str"@.len() == 3 && "str"@[0] == 's');
    reveal_strlit("Option");
    assert("Option"@.len() == 6);
    reveal_strlit("Result");
    assert("Result"@.len() == 6);
    reveal_strlit("Box");
    assert("Box"@.len() == 3 && "Box"@[0] == 'B');
    reveal_strlit("VecDeque");
    assert("VecDeque"@.len() == 8);
    reveal_strlit("HashMap");
    assert("HashMap"@.len() == 7);
    reveal_strlit("HashSet");
    assert("HashSet"@.len() == 7);
    reveal_strlit("BTreeMap");
    assert("BTreeMap"@.len() == 8);
    reveal_strlit("BTreeSet");
    assert("BTreeSet"@.len() == 8);
}

fn number_name(n: &str) -> (r: bool)
    ensures
        r == is_number_name(n@),
{
    text_eq(n, "i8") || text_eq(n, "i16") || text_eq(n, "i32") || text_eq(n, "i64") || text_eq(n, "u8") || text_eq(
        n,
        "u16",
    ) || text_eq(n, "u32") || text_eq(n, "u64") || text_eq(n, "f32") || text_eq(n, "f64")
}

/// The JSON schema type of a Rust type (see `json_kind_of`).
pub fn get_json_type(t: &TypeShape) -> (r: JsonKind)
    ensures
        r == json_kind_of(*t),
    decreases t,
{
    match t {
        TypeShape::Path { name, first_arg } => {
            if text_eq(name.as_str(), "Vec") {
                match first_arg {
                    Some(inner) => {
                        let k = get_json_type(&**inner);
                        JsonKind::Array(Some(Box::new(k)))
                    },
                    None => JsonKind::Array(None),
                }
            } else if number_name(name.as_str()) {
                JsonKind::Number
            } else if text_eq(name.as_str(), "String") || text_eq(name.as_str(), "str") {
                JsonKind::Text
            } else if text_eq(name.as_str(), "bool") {
                JsonKind::Boolean
            } else {
                JsonKind::Object
            }
        },
        TypeShape::Other => JsonKind::Object,
    }
}

/// The primitive and standard-library type names, which are not custom
/// structs.
pub open spec fn is_known_name(n: Seq<char>) -> bool {
    ||| n == "i8"@ || n == "i16"@ || n == "i32"@ || n == "i64"@ || n == "i128"@ || n == "isize"@
    ||| n == "u8"@ || n == "u16"@ || n == "u32"@ || n == "u64"@ || n == "u128"@ || n == "usize"@
    ||| n == "f32"@ || n == "f64"@ || n == "bool"@ || n == "char"@ || n == "String"@ || n == "str"@
    ||| n == "Vec"@ || n == "Option"@ || n == "Result"@ || n == "Box"@ || n == "VecDeque"@
    ||| n == "HashMap"@ || n == "HashSet"@ || n == "BTreeMap"@ || n == "BTreeSet"@
}

/// Whether a type is a custom struct, or a `Vec` of one.
pub open spec fn custom_struct(t: TypeShape) -> bool
    decreases t,
{
    match t {
        TypeShape::Path { name, first_arg } => if name@ == "Vec"@ {
            match first_arg {
                Some(inner) => custom_struct(*inner),
                None => false,
            }
        } else {
            !is_known_name(name@)
        },
        TypeShape::Other => false,
    }
}

fn known_name(n: &str) -> (r: bool)
    ensures
        r == is_known_name(n@),
{
    (text_eq(n, "i8") || text_eq(n, "i16") || text_eq(n, "i32") || text_eq(n, "i64") || text_eq(n, "i128")
        || text_eq(n, "isize")) || (text_eq(n, "u8") || text_eq(n, "u16") || text_eq(n, "u32") || text_eq(n, "u64")
        || text_eq(n, "u128") || text_eq(n, "usize")) || (text_eq(n, "f32") || text_eq(n, "f64") || text_eq(
        n,
        "bool",
    ) || text_eq(n, "char") || text_eq(n, "String") || text_eq(n, "str")) || (text_eq(n, "Vec") || text_eq(
        n,
        "Option",
    ) || text_eq(n, "Result") || text_eq(n, "Box") || text_eq(n, "VecDeque")) || (text_eq(n, "HashMap")
        || text_eq(n, "HashSet") || text_eq(n, "BTreeMap") || text_eq(n, "BTreeSet"))
}

/// Whether a type is a custom struct, or a `Vec` of one.
pub fn is_custom_struct(t: &TypeShape) -> (r: bool)
    ensures
        r == custom_struct(*t),
    decreases t,
{
    match t {
        TypeShape::Path { name, first_arg } => {
            if text_eq(name.as_str(), "Vec") {
                match first_arg {
                    Some(inner) => is_custom_struct(&**inner),
                    None => false,
                }
            } else {
                !known_name(name.as_str())
            }
        },
        TypeShape::Other => false,
    }
}

/// The value of a `key = value` entry, read as a string literal and as a
/// boolean literal: each the literal's value, or what the parser said.
pub struct LitValue {
    pub as_str: Result<String, String>,
    pub as_bool: Result<bool, String>,
}

/// An entry of the attribute, as the parser found it.
pub enum MetaItem {
    /// `key = value`; the key is `None` when the path is not one identifier.
    NameValue { key: Option<String>, value: LitValue },
    /// `arg(...)`, with its entries.
    ArgList { args: Vec<ArgItem> },
    /// Any other form.
    Unsupported,
}

/// The inside of an `arg(...)`: the argument's name (or what the parser
/// said when it found no identifier), then its `key = value` properties,
/// each `None` when it is not of that form.
pub struct ArgItem {
    pub name: Result<String, String>,
    pub props: Vec<Option<(Option<String>, LitValue)>>,
}

/// What `arg(...)` says of an argument.
pub struct ArgMeta {
    pub name: String,
    pub description: Option<String>,
    pub required: Option<bool>,
}

/// What the attribute says of a tool.
pub struct ToolAttribute {
    pub name: Option<String>,
    pub description: Option<String>,
    pub args: Vec<ArgMeta>,
}

pub open spec fn arg_view(a: ArgMeta) -> (Seq<char>, Option<Seq<char>>, Option<bool>) {
    (
        a.name@,
        match a.description {
            Some(d) => Some(d@),
            None => None,
        },
        a.required,
    )
}

/// Read the properties of an argument from the `k`-th on, starting from
/// `(description, required)`: `description` takes a string and `required` a
/// boolean; another key, a value of the wrong kind, or an entry that is not
/// `key = value`, is an error.
pub open spec fn read_props(
    props: Seq<Option<(Option<String>, LitValue)>>,
    acc: (Option<Seq<char>>, Option<bool>),
) -> Result<(Option<Seq<char>>, Option<bool>), Seq<char>>
    decreases props.len(),
{
    if props.len() == 0 {
        Ok(acc)
    } else {
        match read_props(props.drop_last(), acc) {
            Err(e) => Err(e),
            Ok(a) => match props.last() {
                None => Err("Expected `key = value` format for arg properties"@),
                Some((None, _)) => Err("Expected identifier"@),
                Some((Some(k), v)) => if k@ == "description"@ {
                    match v.as_str {
                        Ok(s) => Ok((Some(s@), a.1)),
                        Err(e) => Err("Expected string literal for description, error: "@ + e@),
                    }
                } else if k@ == "required"@ {
                    match v.as_bool {
                        Ok(b) => Ok((a.0, Some(b))),
                        Err(e) => Err("Expected boolean literal (true/false) for 'required' attribute, got: "@ + e@),
                    }
                } else {
                    Err("Unknown arg property: "@ + k@)
                },
            },
        }
    }
}

/// What an `arg(...)` entry says of its argument (the name trimmed).
pub open spec fn arg_meaning(item: ArgItem) -> Result<(Seq<char>, Option<Seq<char>>, Option<bool>), Seq<char>> {
    match item.name {
        Err(e) => Err(e@),
        Ok(n) => match read_props(item.props@, (None, None)) {
            Err(e) => Err(e),
            Ok(p) => Ok((trim_text(n@), p.0, p.1)),
        },
    }
}

fn copy_str_result(v: &Result<String, String>) -> (r: Result<String, String>)
    ensures
        r == *v,
{
    match v {
        Ok(s) => Ok(s.clone()),
        Err(e) => Err(e.clone()),
    }
}

/// Read an `arg(...)` entry (see `arg_meaning`).
pub fn parse_arg(item: &ArgItem) -> (r: Result<ArgMeta, String>)
    ensures
        match (r, arg_meaning(*item)) {
            (Ok(a), Ok(m)) => arg_view(a) == m,
            (Err(e), Err(m)) => e@ == m,
            _ => false,
        },
{
    let name = match &item.name {
        Err(e) => {
            return Err(e.clone());
        },
        Ok(n) => trim(n.as_str()),
    };
    let mut description: Option<String> = None;
    let mut required: Option<bool> = None;
    let mut i: usize = 0;
    while i < item.props.len()
        invariant
            i <= item.props.len(),
            item.name is Ok,
            name@ == trim_text(item.name->Ok_0@),
            read_props(item.props@.take(i as int), (None, None)) == Ok::<(Option<Seq<char>>, Option<bool>), Seq<char>>(
                (
                    match description {
                        Some(d) => Some(d@),
                        None => None,
                    },
                    required,
                ),
            ),
        decreases item.props.len() - i,
    {
        proof {
            assert(item.props@.take(i as int + 1).drop_last() =~= item.props@.take(i as int));
            assert(item.props@.take(i as int + 1).last() == item.props@[i as int]);
        }
        match &item.props[i] {
            None => {
                proof {
                    lemma_props_error_stays(item.props@, i as int + 1);
                }
                return Err(owned("Expected `key = value` format for arg properties"));
            },
            Some((None, _)) => {
                proof {
                    lemma_props_error_stays(item.props@, i as int + 1);
                }
                return Err(owned("Expected identifier"));
            },
            Some((Some(k), v)) => {
                if text_eq(k.as_str(), "description") {
                    match copy_str_result(&v.as_str) {
                        Ok(s) => {
                            description = Some(s);
                        },
                        Err(e) => {
                            proof {
                                lemma_props_error_stays(item.props@, i as int + 1);
                            }
                            return Err(cat("Expected string literal for description, error: ", e.as_str()));
                        },
                    }
                } else if text_eq(k.as_str(), "required") {
                    match &v.as_bool {
                        Ok(b) => {
                            required = Some(*b);
                        },
                        Err(e) => {
                            proof {
                                lemma_props_error_stays(item.props@, i as int + 1);
                            }
                            return Err(
                                cat("Expected boolean literal (true/false) for 'required' attribute, got: ", e.as_str()),
                            );
                        },
                    }
                } else {
                    proof {
                        lemma_props_error_stays(item.props@, i as int + 1);
                    }
                    return Err(cat("Unknown arg property: ", k.as_str()));
                }
            },
        }
        i = i + 1;
    }
    proof {
        assert(item.props@.take(item.props.len() as int) =~= item.props@);
    }
    Ok(ArgMeta { name, description, required })
}

/// Once the properties read so far hold an error, every longer run keeps it.
proof fn lemma_props_error_stays(props: Seq<Option<(Option<String>, LitValue)>>, k: int)
    requires
        0 <= k <= props.len(),
        read_props(props.take(k), (None, None)) is Err,
    ensures
        read_props(props, (None, None)) == read_props(props.take(k), (None, None)),
    decreases props.len() - k,
{
    if k < props.len() {
        assert(props.take(k + 1).drop_last() =~= props.take(k));
        lemma_props_error_stays(props, k + 1);
    } else {
        assert(props.take(k) =~= props);
    }
}

/// Read the entries of the attribute from the start, as
/// `(name, description, args)`: `name` and `description` take a string;
/// `arg(...)` adds an argument; any other key, a non-string value, or
/// another form of entry is an error.
pub open spec fn read_entries(metas: Seq<MetaItem>) -> Result<
    (Option<Seq<char>>, Option<Seq<char>>, Seq<(Seq<char>, Option<Seq<char>>, Option<bool>)>),
    Seq<char>,
>
    decreases metas.len(),
{
    if metas.len() == 0 {
        Ok((None, None, Seq::empty()))
    } else {
        match read_entries(metas.drop_last()) {
            Err(e) => Err(e),
            Ok(a) => match metas.last() {
                MetaItem::NameValue { key: None, .. } => Err("Expected identifier"@),
                MetaItem::NameValue { key: Some(k), value } => match value.as_str {
                    Ok(s) => if k@ == "name"@ {
                        Ok((Some(s@), a.1, a.2))
                    } else if k@ == "description"@ {
                        Ok((a.0, Some(s@), a.2))
                    } else {
                        Err("Unknown attribute key: "@ + k@)
                    },
                    Err(e) => Err("Expected string literal, error: "@ + e@),
                },
                MetaItem::ArgList { args } => match read_args(args@) {
                    Err(e) => Err(e),
                    Ok(v) => Ok((a.0, a.1, a.2 + v)),
                },
                MetaItem::Unsupported => Err("Unsupported attribute format, expected `key = value` or `arg(...)`"@),
            },
        }
    }
}

/// Read the entries of an `arg(...)` list, in order; the first error wins.
pub open spec fn read_args(args: Seq<ArgItem>) -> Result<Seq<(Seq<char>, Option<Seq<char>>, Option<bool>)>, Seq<char>>
    decreases args.len(),
{
    if args.len() == 0 {
        Ok(Seq::empty())
    } else {
        match read_args(args.drop_last()) {
            Err(e) => Err(e),
            Ok(v) => match arg_meaning(args.last()) {
                Err(e) => Err(e),
                Ok(m) => Ok(v.push(m)),
            },
        }
    }
}

pub open spec fn attribute_view(t: ToolAttribute) -> (
    Option<Seq<char>>,
    Option<Seq<char>>,
    Seq<(Seq<char>, Option<Seq<char>>, Option<bool>)>,
) {
    (
        match t.name {
            Some(n) => Some(n@),
            None => None,
        },
        match t.description {
            Some(d) => Some(d@),
            None => None,
        },
        t.args@.map_values(|a: ArgMeta| arg_view(a)),
    )
}

proof fn lemma_args_error_stays(args: Seq<ArgItem>, k: int)
    requires
        0 <= k <= args.len(),
        read_args(args.take(k)) is Err,
    ensures
        read_args(args) == read_args(args.take(k)),
    decreases args.len() - k,
{
    if k < args.len() {
        assert(args.take(k + 1).drop_last() =~= args.take(k));
        lemma_args_error_stays(args, k + 1);
    } else {
        assert(args.take(k) =~= args);
    }
}

proof fn lemma_entries_error_stays(metas: Seq<MetaItem>, k: int)
    requires
        0 <= k <= metas.len(),
        read_entries(metas.take(k)) is Err,
    ensures
        read_entries(metas) == read_entries(metas.take(k)),
    decreases metas.len() - k,
{
    if k < metas.len() {
        assert(metas.take(k + 1).drop_last() =~= metas.take(k));
        lemma_entries_error_stays(metas, k + 1);
    } else {
        assert(metas.take(k) =~= metas);
    }
}

/// Read an `arg(...)` list (see `read_args`).
fn parse_args(args: &Vec<ArgItem>) -> (r: Result<Vec<ArgMeta>, String>)
    ensures
        match (r, read_args(args@)) {
            (Ok(v), Ok(m)) => v@.map_values(|a: ArgMeta| arg_view(a)) == m,
            (Err(e), Err(m)) => e@ == m,
            _ => false,
        },
{
    let mut out: Vec<ArgMeta> = Vec::new();
    let mut i: usize = 0;
    proof {
        assert(args@.take(0) =~= Seq::<ArgItem>::empty());
        assert(out@.map_values(|a: ArgMeta| arg_view(a)) =~= Seq::empty());
    }
    while i < args.len()
        invariant
            i <= args.len(),
            read_args(args@.take(i as int)) == Ok::<Seq<(Seq<char>, Option<Seq<char>>, Option<bool>)>, Seq<char>>(
                out@.map_values(|a: ArgMeta| arg_view(a)),
            ),
        decreases args.len() - i,
    {
        proof {
            assert(args@.take(i as int + 1).drop_last() =~= args@.take(i as int));
            assert(args@.take(i as int + 1).last() == args@[i as int]);
        }
        match parse_arg(&args[i]) {
            Ok(a) => {
                let ghost before = out@.map_values(|a: ArgMeta| arg_view(a));
                out.push(a);
                proof {
                    assert(out@.map_values(|a: ArgMeta| arg_view(a)) =~= before.push(arg_view(a)));
                }
            },
            Err(e) => {
                proof {
                    lemma_args_error_stays(args@, i as int + 1);
                }
                return Err(e);
            },
        }
        i = i + 1;
    }
    proof {
        assert(args@.take(args.len() as int) =~= args@);
    }
    Ok(out)
}

/// Read the entries of the tool attribute (see `read_entries`).
pub fn parse_tool_attribute(metas: &Vec<MetaItem>) -> (r: Result<ToolAttribute, String>)
    ensures
        match (r, read_entries(metas@)) {
            (Ok(t), Ok(m)) => attribute_view(t) == m,
            (Err(e), Err(m)) => e@ == m,
            _ => false,
        },
{
    let mut attr = ToolAttribute { name: None, description: None, args: Vec::new() };
    let mut i: usize = 0;
    proof {
        assert(attr.args@.map_values(|a: ArgMeta| arg_view(a)) =~= Seq::empty());
        assert(metas@.take(0) =~= Seq::<MetaItem>::empty());
    }
    while i < metas.len()
        invariant
            i <= metas.len(),
            read_entries(metas@.take(i as int)) == Ok::<
                (Option<Seq<char>>, Option<Seq<char>>, Seq<(Seq<char>, Option<Seq<char>>, Option<bool>)>),
                Seq<char>,
            >(attribute_view(attr)),
        decreases metas.len() - i,
    {
        proof {
            assert(metas@.take(i as int + 1).drop_last() =~= metas@.take(i as int));
            assert(metas@.take(i as int + 1).last() == metas@[i as int]);
        }
        match &metas[i] {
            MetaItem::NameValue { key: None, .. } => {
                proof {
                    lemma_entries_error_stays(metas@, i as int + 1);
                }
                return Err(owned("Expected identifier"));
            },
            MetaItem::NameValue { key: Some(k), value } => match copy_str_result(&value.as_str) {
                Ok(s) => {
                    if text_eq(k.as_str(), "name") {
                        attr.name = Some(s);
                    } else if text_eq(k.as_str(), "description") {
                        attr.description = Some(s);
                    } else {
                        proof {
                            lemma_entries_error_stays(metas@, i as int + 1);
                        }
                        return Err(cat("Unknown attribute key: ", k.as_str()));
                    }
                },
                Err(e) => {
                    proof {
                        lemma_entries_error_stays(metas@, i as int + 1);
                    }
                    return Err(cat("Expected string literal, error: ", e.as_str()));
                },
            },
            MetaItem::ArgList { args } => match parse_args(args) {
                Ok(v) => {
                    let ghost before = attr.args@;
                    let ghost added = v@;
                    let mut v = v;
                    attr.args.append(&mut v);
                    proof {
                        assert(attr.args@ =~= before + added);
                        assert(attr.args@.map_values(|a: ArgMeta| arg_view(a)) =~= before.map_values(
                            |a: ArgMeta| arg_view(a),
                        ) + added.map_values(|a: ArgMeta| arg_view(a)));
                    }
                },
                Err(e) => {
                    proof {
                        lemma_entries_error_stays(metas@, i as int + 1);
                    }
                    return Err(e);
                },
            },
            MetaItem::Unsupported => {
                proof {
                    lemma_entries_error_stays(metas@, i as int + 1);
                }
                return Err(owned("Unsupported attribute format, expected `key = value` or `arg(...)`"));
            },
        }
        i = i + 1;
    }
    proof {
        assert(metas@.take(metas.len() as int) =~= metas@);
    }
    Ok(attr)
}

/// A parameter of the tool function: its name when the pattern is a plain
/// identifier, and its type.
pub struct FnParam {
    pub ident: Option<String>,
    pub ty: TypeShape,
}

/// What the parameters become in the tool's schema: each parameter's
/// description, the names of the required ones, and whether the arguments
/// are one custom struct.
pub struct ArgsPlan {
    pub descriptions: Vec<String>,
    pub required: Vec<String>,
    pub struct_args: bool,
}

/// The position of the first parameter named `name`.
pub open spec fn param_index(params: Seq<FnParam>, name: Seq<char>) -> Option<int>
    decreases params.len(),
{
    if params.len() == 0 {
        None
    } else {
        match param_index(params.drop_last(), name) {
            Some(i) => Some(i),
            None => match params.last().ident {
                Some(n) => if n@ == name {
                    Some(params.len() - 1)
                } else {
                    None
                },
                None => None,
            },
        }
    }
}

/// The position of the first `arg(...)` entry for `name`.
pub open spec fn arg_index(args: Seq<ArgMeta>, name: Seq<char>) -> Option<int>
    decreases args.len(),
{
    if args.len() == 0 {
        None
    } else {
        match arg_index(args.drop_last(), name) {
            Some(i) => Some(i),
            None => if args.last().name@ == name {
                Some(args.len() - 1)
            } else {
                None
            },
        }
    }
}

/// An `arg(...)` entry marked optional whose parameter's type is a path
/// other than `Option`.
pub open spec fn optional_mismatch(params: Seq<FnParam>, a: ArgMeta) -> bool {
    &&& a.required == Some(false)
    &&& param_index(params, a.name@) matches Some(i) && (params[i].ty matches TypeShape::Path { name, .. }
        && name@ != "Option"@)
}

/// The checks made on each `arg(...)` entry, in order: optional but not an
/// `Option` (0), naming no parameter (1), without a description (2).
pub open spec fn fails_check(check: int, params: Seq<FnParam>, a: ArgMeta) -> bool {
    if check == 0 {
        optional_mismatch(params, a)
    } else if check == 1 {
        param_index(params, a.name@) is None
    } else {
        a.description is None
    }
}

/// The first entry, in order, that fails the check.
pub open spec fn first_bad(args: Seq<ArgMeta>, params: Seq<FnParam>, check: int) -> Option<ArgMeta>
    decreases args.len(),
{
    if args.len() == 0 {
        None
    } else {
        match first_bad(args.drop_last(), params, check) {
            Some(a) => Some(a),
            None => if fails_check(check, params, args.last()) {
                Some(args.last())
            } else {
                None
            },
        }
    }
}

/// The first entry whose name an earlier entry already has.
pub open spec fn first_duplicate(args: Seq<ArgMeta>) -> Option<ArgMeta>
    decreases args.len(),
{
    if args.len() == 0 {
        None
    } else {
        match first_duplicate(args.drop_last()) {
            Some(a) => Some(a),
            None => if arg_index(args.drop_last(), args.last().name@) is Some {
                Some(args.last())
            } else {
                None
            },
        }
    }
}

/// The description of a parameter: its entry's, or `"Parameter <name>"`.
pub open spec fn param_description(args: Seq<ArgMeta>, name: Seq<char>) -> Seq<char> {
    match arg_index(args, name) {
        Some(k) => match args[k].description {
            Some(d) => d@,
            None => "Parameter "@ + name,
        },
        None => "Parameter "@ + name,
    }
}

/// A parameter is required unless its entry says `required = false`.
pub open spec fn param_required(args: Seq<ArgMeta>, name: Seq<char>) -> bool {
    match arg_index(args, name) {
        Some(k) => match args[k].required {
            Some(b) => b,
            None => true,
        },
        None => true,
    }
}

/// The name of a parameter, or the empty text for a pattern.
pub open spec fn ident_text(p: FnParam) -> Seq<char> {
    match p.ident {
        Some(n) => n@,
        None => Seq::empty(),
    }
}

/// The names of the required parameters, in order.
pub open spec fn required_names(params: Seq<FnParam>, args: Seq<ArgMeta>) -> Seq<Seq<char>>
    decreases params.len(),
{
    if params.len() == 0 {
        Seq::empty()
    } else {
        let rest = required_names(params.drop_last(), args);
        let n = ident_text(params.last());
        if param_required(args, n) {
            rest.push(n)
        } else {
            rest
        }
    }
}

/// What the tool's parameters and `arg(...)` entries give, checked in order:
/// a custom struct must be the only parameter; an optional entry must name
/// an `Option` parameter; every entry must name a parameter, have a
/// description, and name it once; every parameter must be a plain name.
pub open spec fn tool_args_plan(params: Seq<FnParam>, args: Seq<ArgMeta>) -> Result<
    (Seq<Seq<char>>, Seq<Seq<char>>, bool),
    Seq<char>,
> {
    if has_struct_param(params) && params.len() != 1 {
        Err("Struct args must be the only arg"@)
    } else if first_bad(args, params, 0) is Some {
        Err("Argument '"@ + first_bad(args, params, 0)->0.name@
            + "' is marked as optional (required = false) but is not an Option type"@)
    } else if first_bad(args, params, 1) is Some {
        Err("Argument "@ + first_bad(args, params, 1)->0.name@ + " not found in function arguments"@)
    } else if first_bad(args, params, 2) is Some {
        Err("Argument "@ + first_bad(args, params, 2)->0.name@ + " must have a description"@)
    } else if first_duplicate(args) is Some {
        Err("Argument "@ + first_duplicate(args)->0.name@ + " appears more than once"@)
    } else if has_pattern_param(params) {
        Err("Only simple identifiers are supported in tool arguments"@)
    } else {
        Ok(
            (
                params.map_values(|p: FnParam| param_description(args, ident_text(p))),
                required_names(params, args),
                has_struct_param(params),
            ),
        )
    }
}

/// Some parameter's type is a custom struct.
pub open spec fn has_struct_param(params: Seq<FnParam>) -> bool {
    exists|i: int| 0 <= i < params.len() && custom_struct(#[trigger] params[i].ty)
}

/// Some parameter is a pattern rather than a plain name.
pub open spec fn has_pattern_param(params: Seq<FnParam>) -> bool {
    exists|i: int| 0 <= i < params.len() && (#[trigger] params[i]).ident is None
}

fn find_param(params: &Vec<FnParam>, name: &String) -> (r: Option<usize>)
    ensures
        r is None <==> param_index(params@, name@) is None,
        r matches Some(k) ==> k < params.len() && param_index(params@, name@) == Some(k as int),
{
    let mut i: usize = 0;
    while i < params.len()
        invariant
            i <= params.len(),
            param_index(params@.take(i as int), name@) is None,
        decreases params.len() - i,
    {
        proof {
            assert(params@.take(i as int + 1).drop_last() =~= params@.take(i as int));
        }
        let hit = match &params[i].ident {
            Some(n) => text_eq(n.as_str(), name.as_str()),
            None => false,
        };
        if hit {
            proof {
                lemma_param_prefix(params@, name@, i as int + 1);
            }
            return Some(i);
        }
        i = i + 1;
    }
    proof {
        assert(params@.take(params.len() as int) =~= params@);
    }
    None
}

proof fn lemma_param_prefix(params: Seq<FnParam>, name: Seq<char>, k: int)
    requires
        0 <= k <= params.len(),
        param_index(params.take(k), name) is Some,
    ensures
        param_index(params, name) == param_index(params.take(k), name),
    decreases params.len() - k,
{
    if k < params.len() {
        assert(params.take(k + 1).drop_last() =~= params.take(k));
        lemma_param_prefix(params, name, k + 1);
    } else {
        assert(params.take(k) =~= params);
    }
}

fn find_arg(args: &Vec<ArgMeta>, upto: usize, name: &String) -> (r: Option<usize>)
    requires
        upto <= args.len(),
    ensures
        r is None <==> arg_index(args@.take(upto as int), name@) is None,
        r matches Some(k) ==> k < upto && arg_index(args@.take(upto as int), name@) == Some(k as int),
{
    let mut i: usize = 0;
    while i < upto
        invariant
            i <= upto <= args.len(),
            arg_index(args@.take(i as int), name@) is None,
        decreases upto - i,
    {
        proof {
            assert(args@.take(i as int + 1).drop_last() =~= args@.take(i as int));
        }
        if text_eq(args[i].name.as_str(), name.as_str()) {
            proof {
                lemma_arg_prefix(args@.take(upto as int), name@, i as int + 1);
                assert(args@.take(upto as int).take(i as int + 1) =~= args@.take(i as int + 1));
            }
            return Some(i);
        }
        i = i + 1;
    }
    None
}

proof fn lemma_arg_prefix(args: Seq<ArgMeta>, name: Seq<char>, k: int)
    requires
        0 <= k <= args.len(),
        arg_index(args.take(k), name) is Some,
    ensures
        arg_index(args, name) == arg_index(args.take(k), name),
    decreases args.len() - k,
{
    if k < args.len() {
        assert(args.take(k + 1).drop_last() =~= args.take(k));
        lemma_arg_prefix(args, name, k + 1);
    } else {
        assert(args.take(k) =~= args);
    }
}

proof fn lemma_bad_prefix(args: Seq<ArgMeta>, params: Seq<FnParam>, check: int, k: int)
    requires
        0 <= k <= args.len(),
        first_bad(args.take(k), params, check) is Some,
    ensures
        first_bad(args, params, check) == first_bad(args.take(k), params, check),
    decreases args.len() - k,
{
    if k < args.len() {
        assert(args.take(k + 1).drop_last() =~= args.take(k));
        lemma_bad_prefix(args, params, check, k + 1);
    } else {
        assert(args.take(k) =~= args);
    }
}

proof fn lemma_dup_prefix(args: Seq<ArgMeta>, k: int)
    requires
        0 <= k <= args.len(),
        first_duplicate(args.take(k)) is Some,
    ensures
        first_duplicate(args) == first_duplicate(args.take(k)),
    decreases args.len() - k,
{
    if k < args.len() {
        assert(args.take(k + 1).drop_last() =~= args.take(k));
        lemma_dup_prefix(args, k + 1);
    } else {
        assert(args.take(k) =~= args);
    }
}

/// The position of the first entry that fails the check.
fn scan_args(args: &Vec<ArgMeta>, params: &Vec<FnParam>, check: u8) -> (r: Option<usize>)
    requires
        check < 3,
    ensures
        match first_bad(args@, params@, check as int) {
            Some(a) => r matches Some(i) && i < args.len() && args@[i as int] == a,
            None => r is None,
        },
{
    let mut i: usize = 0;
    while i < args.len()
        invariant
            i <= args.len(),
            check < 3,
            first_bad(args@.take(i as int), params@, check as int) is None,
        decreases args.len() - i,
    {
        proof {
            assert(args@.take(i as int + 1).drop_last() =~= args@.take(i as int));
            assert(args@.take(i as int + 1).last() == args@[i as int]);
        }
        let a = &args[i];
        let is_bad = if check == 0 {
            match a.required {
                Some(false) => match find_param(params, &a.name) {
                    Some(k) => match &params[k].ty {
                        TypeShape::Path { name, .. } => !text_eq(name.as_str(), "Option"),
                        TypeShape::Other => false,
                    },
                    None => false,
                },
                _ => false,
            }
        } else if check == 1 {
            find_param(params, &a.name).is_none()
        } else {
            a.description.is_none()
        };
        proof {
            assert(is_bad == fails_check(check as int, params@, args@[i as int]));
        }
        if is_bad {
            proof {
                lemma_bad_prefix(args@, params@, check as int, i as int + 1);
            }
            return Some(i);
        }
        i = i + 1;
    }
    proof {
        assert(args@.take(args.len() as int) =~= args@);
    }
    None
}

/// Check the tool's parameters against its `arg(...)` entries and say what
/// they become in the schema (see `tool_args_plan`); an error is the
/// message the attribute reports.
pub fn plan_tool_args(params: &Vec<FnParam>, args: &Vec<ArgMeta>) -> (r: Result<ArgsPlan, String>)
    ensures
        match (r, tool_args_plan(params@, args@)) {
            (Ok(p), Ok(sp)) => p.descriptions@.map_values(|x: String| x@) == sp.0 && p.required@.map_values(
                |x: String| x@,
            ) == sp.1 && p.struct_args == sp.2,
            (Err(m), Err(sm)) => m@ == sm,
            _ => false,
        },
{
    let mut struct_args = false;
    let mut i: usize = 0;
    while i < params.len()
        invariant
            i <= params.len(),
            struct_args == exists|k: int| 0 <= k < i && custom_struct(#[trigger] params@[k].ty),
        decreases params.len() - i,
    {
        if is_custom_struct(&params[i].ty) {
            struct_args = true;
        }
        i = i + 1;
    }
    if struct_args && params.len() != 1 {
        return Err(owned("Struct args must be the only arg"));
    }
    if let Some(k) = scan_args(args, params, 0) {
        let mut m = owned("Argument '");
        m.append(args[k].name.as_str());
        m.append("' is marked as optional (required = false) but is not an Option type");
        return Err(m);
    }
    if let Some(k) = scan_args(args, params, 1) {
        let mut m = owned("Argument ");
        m.append(args[k].name.as_str());
        m.append(" not found in function arguments");
        return Err(m);
    }
    if let Some(k) = scan_args(args, params, 2) {
        let mut m = owned("Argument ");
        m.append(args[k].name.as_str());
        m.append(" must have a description");
        return Err(m);
    }
    proof {
        assert(struct_args == has_struct_param(params@));
    }
    let mut j: usize = 0;
    while j < args.len()
        invariant
            j <= args.len(),
            first_duplicate(args@.take(j as int)) is None,
            struct_args == has_struct_param(params@),
            !(struct_args && params.len() != 1),
            first_bad(args@, params@, 0) is None,
            first_bad(args@, params@, 1) is None,
            first_bad(args@, params@, 2) is None,
        decreases args.len() - j,
    {
        proof {
            assert(args@.take(j as int + 1).drop_last() =~= args@.take(j as int));
            assert(args@.take(j as int + 1).last() == args@[j as int]);
        }
        if find_arg(args, j, &args[j].name).is_some() {
            proof {
                lemma_dup_prefix(args@, j as int + 1);
            }
            let mut m = owned("Argument ");
            m.append(args[j].name.as_str());
            m.append(" appears more than once");
            return Err(m);
        }
        j = j + 1;
    }
    proof {
        assert(args@.take(args.len() as int) =~= args@);
    }
    let mut descriptions: Vec<String> = Vec::new();
    let mut required: Vec<String> = Vec::new();
    let mut i: usize = 0;
    while i < params.len()
        invariant
            i <= params.len(),
            struct_args == has_struct_param(params@),
            !(struct_args && params.len() != 1),
            first_bad(args@, params@, 0) is None,
            first_bad(args@, params@, 1) is None,
            first_bad(args@, params@, 2) is None,
            first_duplicate(args@) is None,
            forall|k: int| 0 <= k < i ==> (#[trigger] params@[k]).ident is Some,
            descriptions.len() == i,
            forall|k: int|
                0 <= k < i ==> (#[trigger] descriptions@[k])@ == param_description(args@, ident_text(params@[k])),
            required@.map_values(|x: String| x@) == required_names(params@.take(i as int), args@),
        decreases params.len() - i,
    {
        proof {
            assert(params@.take(i as int + 1).drop_last() =~= params@.take(i as int));
            assert(params@.take(i as int + 1).last() == params@[i as int]);
        }
        let ident = match &params[i].ident {
            Some(n) => n.clone(),
            None => {
                proof {
                    assert(params@[i as int].ident is None);
                    assert(has_pattern_param(params@));
                }
                return Err(owned("Only simple identifiers are supported in tool arguments"));
            },
        };
        proof {
            assert(args@.take(args.len() as int) =~= args@);
            assert(ident_text(params@[i as int]) == ident@);
        }
        let d = match find_arg(args, args.len(), &ident) {
            Some(k) => match &args[k].description {
                Some(d) => d.clone(),
                None => cat("Parameter ", ident.as_str()),
            },
            None => cat("Parameter ", ident.as_str()),
        };
        proof {
            assert(args@.take(args.len() as int) =~= args@);
        }
        descriptions.push(d);
        let req = match find_arg(args, args.len(), &ident) {
            Some(k) => match args[k].required {
                Some(b) => b,
                None => true,
            },
            None => true,
        };
        if req {
            let ghost before = required@.map_values(|x: String| x@);
            required.push(ident);
            proof {
                assert(required@.map_values(|x: String| x@) =~= before.push(ident_text(params@[i as int])));
            }
        }
        i = i + 1;
    }
    proof {
        assert(params@.take(params.len() as int) =~= params@);
        assert(descriptions@.map_values(|x: String| x@) =~= params@.map_values(
            |p: FnParam| param_description(args@, ident_text(p)),
        ));
    }
    Ok(ArgsPlan { descriptions, required, struct_args })
}

} // verus!
