//! Type hints: whether a value satisfies a declared parameter or return
//! type such as `numeric`, `string` or a class name.
use vstd::prelude::*;
use crate::text::{is_ws, is_ws_exec, lower_exec, chars_of, push_char, str_eq};
use crate::vm::member::ascii_lower;

verus! {

/// What a type hint can tell apart about a value. `Number` is a double,
/// `Int` an integer; `ClassOrInstance` is a class or an instance of one.
#[derive(Debug, Clone, Copy, PartialEq, Eq, Structural)]
pub enum ValueKind {
    Null,
    Number,
    Int,
    Bool,
    String,
    Array,
    DateTime,
    Range,
    Struct,
    Function,
    ClassOrInstance,
    Interface,
    Other,
}

/// `s` without leading whitespace.
pub open spec fn trim_start(s: Seq<char>) -> Seq<char>
    decreases s.len(),
{
    if s.len() > 0 && is_ws(s[0]) {
        trim_start(s.drop_first())
    } else {
        s
    }
}

/// `s` without trailing whitespace.
pub open spec fn trim_end(s: Seq<char>) -> Seq<char>
    decreases s.len(),
{
    if s.len() > 0 && is_ws(s.last()) {
        trim_end(s.drop_last())
    } else {
        s
    }
}

/// `s` without leading and trailing whitespace (`str::trim`).
pub open spec fn trim(s: Seq<char>) -> Seq<char> {
    trim_end(trim_start(s))
}

/// Whether a value of `kind` satisfies the type named `name` (trimmed and
/// in ASCII lower case). Built-in type names are decided by the kind; any
/// other name is decided by `class_match`, the answer of the lookup of a
/// global class or interface of that name: `None` when there is neither,
/// else whether the value's class, or the interface value, matches it.
pub open spec fn type_name_matches(kind: ValueKind, name: Seq<char>, class_match: Option<bool>) -> bool {
    if name == "any"@ || name == "object"@ {
        kind != ValueKind::Null
    } else if name == "null"@ || name == "void"@ {
        kind == ValueKind::Null
    } else if name == "string"@ {
        kind == ValueKind::String
    } else if name == "numeric"@ || name == "number"@ || name == "double"@ || name == "float"@ || name == "bigdecimal"@ {
        kind == ValueKind::Number
    } else if name == "integer"@ || name == "int"@ || name == "long"@ || name == "short"@ || name == "byte"@ {
        kind == ValueKind::Int
    } else if name == "boolean"@ || name == "bool"@ {
        kind == ValueKind::Bool
    } else if name == "array"@ {
        kind == ValueKind::Array
    } else if name == "datetime"@ {
        kind == ValueKind::DateTime
    } else if name == "range"@ {
        kind == ValueKind::Range
    } else if name == "struct"@ || name == "componentstruct"@ {
        kind == ValueKind::Struct
    } else if name == "function"@ {
        kind == ValueKind::Function
    } else if name == "class"@ || name == "component"@ {
        kind == ValueKind::ClassOrInstance
    } else if name == "interface"@ {
        kind == ValueKind::Interface
    } else {
        match class_match {
            Some(b) => b && (kind == ValueKind::ClassOrInstance || kind == ValueKind::Interface),
            None => false,
        }
    }
}

/// The built-in type name of each kind of value (`Other` has none).
pub open spec fn kind_hint(k: ValueKind) -> Option<Seq<char>> {
    match k {
        ValueKind::Null => Some("null"@),
        ValueKind::Number => Some("numeric"@),
        ValueKind::Int => Some("integer"@),
        ValueKind::Bool => Some("boolean"@),
        ValueKind::String => Some("string"@),
        ValueKind::Array => Some("array"@),
        ValueKind::DateTime => Some("datetime"@),
        ValueKind::Range => Some("range"@),
        ValueKind::Struct => Some("struct"@),
        ValueKind::Function => Some("function"@),
        ValueKind::ClassOrInstance => Some("class"@),
        ValueKind::Interface => Some("interface"@),
        ValueKind::Other => None,
    }
}

/// Each kind of value satisfies the built-in type named after it, and no
/// other kind does, whatever the class lookup answers; so do the other
/// names of that type (`number`, `double`, ... for `numeric`); `any` and
/// `object` are satisfied by every value but `null`.
pub proof fn lemma_kind_matches_own_type(k: ValueKind, k2: ValueKind, class_match: Option<bool>)
    ensures
        kind_hint(k) matches Some(h) ==> (type_name_matches(k2, h, class_match) <==> k2 == k),
        type_name_matches(k2, "any"@, class_match) <==> k2 != ValueKind::Null,
        type_name_matches(k2, "object"@, class_match) <==> k2 != ValueKind::Null,
        type_name_matches(k2, "null"@, class_match) <==> k2 == ValueKind::Null,
        type_name_matches(k2, "void"@, class_match) <==> k2 == ValueKind::Null,
        type_name_matches(k2, "numeric"@, class_match) <==> k2 == ValueKind::Number,
        type_name_matches(k2, "number"@, class_match) <==> k2 == ValueKind::Number,
        type_name_matches(k2, "double"@, class_match) <==> k2 == ValueKind::Number,
        type_name_matches(k2, "float"@, class_match) <==> k2 == ValueKind::Number,
        type_name_matches(k2, "bigdecimal"@, class_match) <==> k2 == ValueKind::Number,
        type_name_matches(k2, "integer"@, class_match) <==> k2 == ValueKind::Int,
        type_name_matches(k2, "int"@, class_match) <==> k2 == ValueKind::Int,
        type_name_matches(k2, "long"@, class_match) <==> k2 == ValueKind::Int,
        type_name_matches(k2, "short"@, class_match) <==> k2 == ValueKind::Int,
        type_name_matches(k2, "byte"@, class_match) <==> k2 == ValueKind::Int,
        type_name_matches(k2, "boolean"@, class_match) <==> k2 == ValueKind::Bool,
        type_name_matches(k2, "bool"@, class_match) <==> k2 == ValueKind::Bool,
        type_name_matches(k2, "string"@, class_match) <==> k2 == ValueKind::String,
        type_name_matches(k2, "array"@, class_match) <==> k2 == ValueKind::Array,
        type_name_matches(k2, "datetime"@, class_match) <==> k2 == ValueKind::DateTime,
        type_name_matches(k2, "range"@, class_match) <==> k2 == ValueKind::Range,
        type_name_matches(k2, "struct"@, class_match) <==> k2 == ValueKind::Struct,
        type_name_matches(k2, "componentstruct"@, class_match) <==> k2 == ValueKind::Struct,
        type_name_matches(k2, "function"@, class_match) <==> k2 == ValueKind::Function,
        type_name_matches(k2, "class"@, class_match) <==> k2 == ValueKind::ClassOrInstance,
        type_name_matches(k2, "component"@, class_match) <==> k2 == ValueKind::ClassOrInstance,
        type_name_matches(k2, "interface"@, class_match) <==> k2 == ValueKind::Interface,
{
    reveal_strlit("any");
    reveal_strlit("object");
    reveal_strlit("null");
    reveal_strlit("void");
    reveal_strlit("string");
    reveal_strlit("numeric");
    reveal_strlit("number");
    reveal_strlit("double");
    reveal_strlit("float");
    reveal_strlit("bigdecimal");
    reveal_strlit("integer");
    reveal_strlit("int");
    reveal_strlit("long");
    reveal_strlit("short");
    reveal_strlit("byte");
    reveal_strlit("boolean");
    reveal_strlit("bool");
    reveal_strlit("array");
    reveal_strlit("datetime");
    reveal_strlit("range");
    reveal_strlit("struct");
    reveal_strlit("componentstruct");
    reveal_strlit("function");
    reveal_strlit("class");
    reveal_strlit("component");
    reveal_strlit("interface");
    assert("any"@.len() == 3 && "any"@[0] == 'a' && "any"@[1] == 'n' && "any"@[2] == 'y');
    assert("object"@.len() == 6 && "object"@[0] == 'o' && "object"@[1] == 'b' && "object"@[2] == 'j' && "object"@[3] == 'e' && "object"@[4] == 'c' && "object"@[5] == 't');
    assert("null"@.len() == 4 && "null"@[0] == 'n' && "null"@[1] == 'u' && "null"@[2] == 'l' && "null"@[3] == 'l');
    assert("void"@.len() == 4 && "void"@[0] == 'v' && "void"@[1] == 'o' && "void"@[2] == 'i' && "void"@[3] == 'd');
    assert("string"@.len() == 6 && "string"@[0] == 's' && "string"@[1] == 't' && "string"@[2] == 'r' && "string"@[3] == 'i' && "string"@[4] == 'n' && "string"@[5] == 'g');
    assert("numeric"@.len() == 7 && "numeric"@[0] == 'n' && "numeric"@[1] == 'u' && "numeric"@[2] == 'm' && "numeric"@[3] == 'e' && "numeric"@[4] == 'r' && "numeric"@[5] == 'i' && "numeric"@[6] == 'c');
    assert("number"@.len() == 6 && "number"@[0] == 'n' && "number"@[1] == 'u' && "number"@[2] == 'm' && "number"@[3] == 'b' && "number"@[4] == 'e' && "number"@[5] == 'r');
    assert("double"@.len() == 6 && "double"@[0] == 'd' && "double"@[1] == 'o' && "double"@[2] == 'u' && "double"@[3] == 'b' && "double"@[4] == 'l' && "double"@[5] == 'e');
    assert("float"@.len() == 5 && "float"@[0] == 'f' && "float"@[1] == 'l' && "float"@[2] == 'o' && "float"@[3] == 'a' && "float"@[4] == 't');
    assert("bigdecimal"@.len() == 10 && "bigdecimal"@[0] == 'b' && "bigdecimal"@[1] == 'i' && "bigdecimal"@[2] == 'g' && "bigdecimal"@[3] == 'd' && "bigdecimal"@[4] == 'e' && "bigdecimal"@[5] == 'c' && "bigdecimal"@[6] == 'i' && "bigdecimal"@[7] == 'm' && "bigdecimal"@[8] == 'a' && "bigdecimal"@[9] == 'l');
    assert("integer"@.len() == 7 && "integer"@[0] == 'i' && "integer"@[1] == 'n' && "integer"@[2] == 't' && "integer"@[3] == 'e' && "integer"@[4] == 'g' && "integer"@[5] == 'e' && "integer"@[6] == 'r');
    assert("int"@.len() == 3 && "int"@[0] == 'i' && "int"@[1] == 'n' && "int"@[2] == 't');
    assert("long"@.len() == 4 && "long"@[0] == 'l' && "long"@[1] == 'o' && "long"@[2] == 'n' && "long"@[3] == 'g');
    assert("short"@.len() == 5 && "short"@[0] == 's' && "short"@[1] == 'h' && "short"@[2] == 'o' && "short"@[3] == 'r' && "short"@[4] == 't');
    assert("byte"@.len() == 4 && "byte"@[0] == 'b' && "byte"@[1] == 'y' && "byte"@[2] == 't' && "byte"@[3] == 'e');
    assert("boolean"@.len() == 7 && "boolean"@[0] == 'b' && "boolean"@[1] == 'o' && "boolean"@[2] == 'o' && "boolean"@[3] == 'l' && "boolean"@[4] == 'e' && "boolean"@[5] == 'a' && "boolean"@[6] == 'n');
    assert("bool"@.len() == 4 && "bool"@[0] == 'b' && "bool"@[1] == 'o' && "bool"@[2] == 'o' && "bool"@[3] == 'l');
    assert("array"@.len() == 5 && "array"@[0] == 'a' && "array"@[1] == 'r' && "array"@[2] == 'r' && "array"@[3] == 'a' && "array"@[4] == 'y');
    assert("datetime"@.len() == 8 && "datetime"@[0] == 'd' && "datetime"@[1] == 'a' && "datetime"@[2] == 't' && "datetime"@[3] == 'e' && "datetime"@[4] == 't' && "datetime"@[5] == 'i' && "datetime"@[6] == 'm' && "datetime"@[7] == 'e');
    assert("range"@.len() == 5 && "range"@[0] == 'r' && "range"@[1] == 'a' && "range"@[2] == 'n' && "range"@[3] == 'g' && "range"@[4] == 'e');
    assert("struct"@.len() == 6 && "struct"@[0] == 's' && "struct"@[1] == 't' && "struct"@[2] == 'r' && "struct"@[3] == 'u' && "struct"@[4] == 'c' && "struct"@[5] == 't');
    assert("componentstruct"@.len() == 15 && "componentstruct"@[0] == 'c' && "componentstruct"@[1] == 'o' && "componentstruct"@[2] == 'm' && "componentstruct"@[3] == 'p' && "componentstruct"@[4] == 'o' && "componentstruct"@[5] == 'n' && "componentstruct"@[6] == 'e' && "componentstruct"@[7] == 'n' && "componentstruct"@[8] == 't' && "componentstruct"@[9] == 's' && "componentstruct"@[10] == 't' && "componentstruct"@[11] == 'r' && "componentstruct"@[12] == 'u' && "componentstruct"@[13] == 'c' && "componentstruct"@[14] == 't');
    assert("function"@.len() == 8 && "function"@[0] == 'f' && "function"@[1] == 'u' && "function"@[2] == 'n' && "function"@[3] == 'c' && "function"@[4] == 't' && "function"@[5] == 'i' && "function"@[6] == 'o' && "function"@[7] == 'n');
    assert("class"@.len() == 5 && "class"@[0] == 'c' && "class"@[1] == 'l' && "class"@[2] == 'a' && "class"@[3] == 's' && "class"@[4] == 's');
    assert("component"@.len() == 9 && "component"@[0] == 'c' && "component"@[1] == 'o' && "component"@[2] == 'm' && "component"@[3] == 'p' && "component"@[4] == 'o' && "component"@[5] == 'n' && "component"@[6] == 'e' && "component"@[7] == 'n' && "component"@[8] == 't');
    assert("interface"@.len() == 9 && "interface"@[0] == 'i' && "interface"@[1] == 'n' && "interface"@[2] == 't' && "interface"@[3] == 'e' && "interface"@[4] == 'r' && "interface"@[5] == 'f' && "interface"@[6] == 'a' && "interface"@[7] == 'c' && "interface"@[8] == 'e');
}

proof fn lemma_trim_start_skip(s: Seq<char>, i: int)
    requires
        0 <= i <= s.len(),
        forall|j: int| 0 <= j < i ==> is_ws(#[trigger] s[j]),
    ensures
        trim_start(s) == trim_start(s.skip(i)),
    decreases i,
{
    if i > 0 {
        assert(s.skip(i - 1).drop_first() =~= s.skip(i));
        lemma_trim_start_skip(s, i - 1);
        assert(s.skip(i - 1)[0] == s[i - 1]);
    } else {
        assert(s.skip(0) =~= s);
    }
}

proof fn lemma_trim_end_take(s: Seq<char>, k: int)
    requires
        0 <= k <= s.len(),
        forall|j: int| k <= j < s.len() ==> is_ws(#[trigger] s[j]),
    ensures
        trim_end(s) == trim_end(s.take(k)),
    decreases s.len() - k,
{
    if k < s.len() {
        assert(s.take(k + 1).drop_last() =~= s.take(k));
        lemma_trim_end_take(s, k + 1);
        assert(s.take(k + 1).last() == s[k]);
    } else {
        assert(s.take(k) =~= s);
    }
}

/// The trimmed, ASCII-lowercase form of a type name.
fn normalize_type_name(hint: &str) -> (r: String)
    ensures
        r@ == ascii_lower(trim(hint@)),
{
    let cs = chars_of(hint);
    let n = cs.len();
    let mut start: usize = 0;
    while start < n && is_ws_exec(cs[start])
        invariant
            start <= n,
            n == cs@.len(),
            cs@ == hint@,
            forall|j: int| 0 <= j < start ==> is_ws(#[trigger] cs@[j]),
        decreases n - start,
    {
        start = start + 1;
    }
    proof {
        lemma_trim_start_skip(cs@, start as int);
        assert(start == n || !is_ws(cs@.skip(start as int)[0]));
    }
    let mut end: usize = n;
    while end > start && is_ws_exec(cs[end - 1])
        invariant
            start <= end <= n,
            n == cs@.len(),
            forall|j: int| end <= j < n ==> is_ws(#[trigger] cs@[j]),
        decreases end,
    {
        end = end - 1;
    }
    let ghost mid = cs@.skip(start as int);
    proof {
        assert(trim_start(cs@) == mid);
        assert forall|j: int| end - start <= j < mid.len() implies is_ws(#[trigger] mid[j]) by {
            assert(mid[j] == cs@[start + j]);
        }
        lemma_trim_end_take(mid, end - start);
        let m = mid.take(end - start);
        if end > start {
            assert(m.last() == cs@[end - 1]);
        }
        assert(trim_end(m) == m);
        assert(m =~= cs@.subrange(start as int, end as int));
    }
    let mut r = String::new();
    let mut i = start;
    while i < end
        invariant
            start <= i <= end <= n,
            n == cs@.len(),
            r@ =~= Seq::new((i - start) as nat, |j: int| crate::text::lower(cs@[start + j])),
        decreases end - i,
    {
        push_char(&mut r, lower_exec(cs[i]));
        i = i + 1;
    }
    r
}

/// Whether a value of `kind` satisfies the type hint `hint` (see
/// `type_name_matches`; `class_match` is the global class or interface
/// lookup's answer for names that are no built-in type).
pub fn value_matches_type_name(kind: ValueKind, hint: &str, class_match: Option<bool>) -> (r: bool)
    ensures
        r == type_name_matches(kind, ascii_lower(trim(hint@)), class_match),
{
    let lowered = normalize_type_name(hint);
    let n = lowered.as_str();
    if str_eq(n, "any") || str_eq(n, "object") {
        kind != ValueKind::Null
    } else if str_eq(n, "null") || str_eq(n, "void") {
        kind == ValueKind::Null
    } else if str_eq(n, "string") {
        kind == ValueKind::String
    } else if str_eq(n, "numeric") || str_eq(n, "number") || str_eq(n, "double") || str_eq(n, "float") || str_eq(n, "bigdecimal") {
        kind == ValueKind::Number
    } else if str_eq(n, "integer") || str_eq(n, "int") || str_eq(n, "long") || str_eq(n, "short") || str_eq(n, "byte") {
        kind == ValueKind::Int
    } else if str_eq(n, "boolean") || str_eq(n, "bool") {
        kind == ValueKind::Bool
    } else if str_eq(n, "array") {
        kind == ValueKind::Array
    } else if str_eq(n, "datetime") {
        kind == ValueKind::DateTime
    } else if str_eq(n, "range") {
        kind == ValueKind::Range
    } else if str_eq(n, "struct") || str_eq(n, "componentstruct") {
        kind == ValueKind::Struct
    } else if str_eq(n, "function") {
        kind == ValueKind::Function
    } else if str_eq(n, "class") || str_eq(n, "component") {
        kind == ValueKind::ClassOrInstance
    } else if str_eq(n, "interface") {
        kind == ValueKind::Interface
    } else {
        match class_match {
            Some(b) => b && (kind == ValueKind::ClassOrInstance || kind == ValueKind::Interface),
            None => false,
        }
    }
}

} // verus!
