//! Methods called on built-in values: `x.len()`, `s.ucase()`, ... resolve
//! to the built-in function that implements them.
use vstd::prelude::*;
use crate::text::{lower, lower_exec, chars_of, push_char, str_eq};

verus! {

/// The kind of value a member method is called on.
#[derive(Debug, Clone, Copy, PartialEq, Eq, Structural)]
pub enum ReceiverKind {
    Number,
    String,
    Array,
    Struct,
    Future,
    DateTime,
    Other,
}

/// `s` with each ASCII capital letter made small (`str::to_ascii_lowercase`).
pub open spec fn ascii_lower(s: Seq<char>) -> Seq<char> {
    Seq::new(s.len(), |i: int| lower(s[i]))
}

/// The ASCII-lowercase form of `s`.
pub fn to_ascii_lower(s: &str) -> (r: String)
    ensures
        r@ == ascii_lower(s@),
{
    let cs = chars_of(s);
    let mut r = String::new();
    let mut i: usize = 0;
    while i < cs.len()
        invariant
            i <= cs@.len(),
            cs@ == s@,
            r@ =~= Seq::new(i as nat, |j: int| lower(cs@[j])),
        decreases cs.len() - i,
    {
        push_char(&mut r, lower_exec(cs[i]));
        i = i + 1;
    }
    r
}

/// The target of the first entry of `table` named `name`.
pub open spec fn first_target(table: Seq<(Seq<char>, Seq<char>)>, name: Seq<char>) -> Option<Seq<char>>
    decreases table.len(),
{
    if table.len() == 0 {
        None
    } else if table[0].0 == name {
        Some(table[0].1)
    } else {
        first_target(table.drop_first(), name)
    }
}

/// The method table of each kind: method name (in lower case) and the
/// built-in function it calls.
pub open spec fn member_table(kind: ReceiverKind) -> Seq<(Seq<char>, Seq<char>)> {
    match kind {
        ReceiverKind::Number => seq![
            ("abs"@, "abs"@),
            ("round"@, "round"@),
            ("floor"@, "floor"@),
            ("log"@, "log"@),
            ("log10"@, "log10"@),
            ("exp"@, "exp"@),
            ("sin"@, "sin"@),
            ("cos"@, "cos"@),
            ("tan"@, "tan"@),
            ("asin"@, "asin"@),
            ("acos"@, "acos"@),
            ("atan"@, "atan"@),
            ("atn"@, "atan"@),
        ],
        ReceiverKind::String => seq![
            ("len"@, "len"@),
            ("length"@, "len"@),
            ("ucase"@, "ucase"@),
            ("touppercase"@, "ucase"@),
            ("lcase"@, "lcase"@),
            ("tolowercase"@, "lcase"@),
            ("split"@, "listtoarray"@),
            ("trim"@, "trim"@),
            ("ltrim"@, "ltrim"@),
            ("rtrim"@, "rtrim"@),
            ("compare"@, "compare"@),
            ("comparenocase"@, "comparenocase"@),
            ("removechars"@, "removechars"@),
            ("stripcr"@, "stripcr"@),
            ("ucfirst"@, "ucfirst"@),
            ("replacenocase"@, "replacenocase"@),
            ("endswithnocase"@, "stringendswithnocase"@),
            ("startswithnocase"@, "stringstartswithnocase"@),
            ("ascii"@, "ascii"@),
            ("findoneof"@, "findoneof"@),
            ("insert"@, "insert"@),
            ("snakecase"@, "snakecase"@),
            ("kebabcase"@, "kebabcase"@),
            ("camelcase"@, "camelcase"@),
            ("pascalcase"@, "pascalcase"@),
            ("replacelist"@, "replacelist"@),
            ("find"@, "stringfind"@),
            ("findnocase"@, "stringfindnocase"@),
            ("endswith"@, "stringendswith"@),
            ("startswith"@, "stringstartswith"@),
            ("val"@, "val"@),
            ("tojson"@, "serializejson"@),
            ("fromjson"@, "deserializejson"@),
            ("rematch"@, "rematch"@),
            ("rematchnocase"@, "rematchnocase"@),
            ("refind"@, "refind"@),
            ("refindnocase"@, "refindnocase"@),
            ("rereplace"@, "rereplace"@),
            ("rereplacenocase"@, "rereplacenocase"@),
            ("hash"@, "hash"@),
            ("hmac"@, "hmac"@),
            ("indexof"@, "indexof"@),
            ("left"@, "left"@),
            ("right"@, "right"@),
            ("mid"@, "mid"@),
            ("reverse"@, "reverse"@),
            ("spanexcluding"@, "spanexcluding"@),
            ("spanincluding"@, "spanincluding"@),
            ("replace"@, "replace"@),
            ("listlen"@, "listlen"@),
            ("listgetat"@, "listgetat"@),
            ("listappend"@, "listappend"@),
            ("listfirst"@, "listfirst"@),
            ("listlast"@, "listlast"@),
            ("listrest"@, "listrest"@),
            ("listdeleteat"@, "listdeleteat"@),
            ("listfind"@, "listfind"@),
            ("listfindnocase"@, "listfindnocase"@),
            ("listsort"@, "listsort"@),
            ("jsformat"@, "jsstringformat"@),
            ("jsstringformat"@, "jsstringformat"@),
            ("ljustify"@, "ljustify"@),
            ("rjustify"@, "rjustify"@),
            ("paragraphformat"@, "paragraphformat"@),
            ("slugify"@, "slugify"@),
            ("wrap"@, "wrap"@),
            ("bind"@, "stringbind"@),
            ("stringbind"@, "stringbind"@),
            ("charsetdecode"@, "charsetdecode"@),
            ("sqlprettify"@, "sqlprettify"@),
        ],
        ReceiverKind::Array => seq![
            ("len"@, "len"@),
            ("length"@, "len"@),
            ("count"@, "len"@),
            ("append"@, "arrayappend"@),
            ("add"@, "arrayappend"@),
            ("resize"@, "arrayresize"@),
            ("swap"@, "arrayswap"@),
            ("each"@, "arrayeach"@),
            ("map"@, "arraymap"@),
            ("reduce"@, "arrayreduce"@),
            ("filter"@, "arrayfilter"@),
            ("tolist"@, "arraytolist"@),
            ("tojson"@, "serializejson"@),
            ("duplicate"@, "duplicate"@),
        ],
        ReceiverKind::Struct => seq![
            ("len"@, "len"@),
            ("count"@, "len"@),
            ("exists"@, "structkeyexists"@),
            ("keyexists"@, "structkeyexists"@),
            ("find"@, "structfind"@),
            ("isempty"@, "structisempty"@),
            ("each"@, "structeach"@),
            ("tojson"@, "serializejson"@),
            ("duplicate"@, "duplicate"@),
            ("iscasesensitive"@, "structiscasesensitive"@),
            ("isordered"@, "structisordered"@),
            ("equals"@, "structequals"@),
            ("getmetadata"@, "structgetmetadata"@),
            ("toquerystring"@, "structtoquerystring"@),
            ("tosorted"@, "structtosorted"@),
            ("keytranslate"@, "structkeytranslate"@),
            ("findkey"@, "structfindkey"@),
        ],
        ReceiverKind::Future => seq![
            ("onerror"@, "futureonerror"@),
            ("get"@, "futureget"@),
        ],
        ReceiverKind::DateTime => seq![
            ("add"@, "dateadd"@),
            ("diff"@, "datediff"@),
            ("format"@, "datetimeformat"@),
            ("dateformat"@, "dateformat"@),
            ("datetimeformat"@, "datetimeformat"@),
            ("duplicate"@, "duplicate"@),
        ],
        ReceiverKind::Other => Seq::empty(),
    }
}

/// The built-in function a method call on a value of `kind` resolves to,
/// for a method name already in lower case.
pub open spec fn member_method_spec(kind: ReceiverKind, name: Seq<char>) -> Option<Seq<char>> {
    first_target(member_table(kind), name)
}

/// The methods that call a built-in of another name: `atn` calls `atan`,
/// `length` calls `len`, `find` on a string calls `stringfind`, and so on.
pub open spec fn renamed(kind: ReceiverKind, name: Seq<char>, target: Seq<char>) -> bool {
    match kind {
        ReceiverKind::Number => {
            ||| (name == "atn"@ && target == "atan"@)
        },
        ReceiverKind::String => {
            ||| (name == "length"@ && target == "len"@)
            ||| (name == "touppercase"@ && target == "ucase"@)
            ||| (name == "tolowercase"@ && target == "lcase"@)
            ||| (name == "split"@ && target == "listtoarray"@)
            ||| (name == "endswithnocase"@ && target == "stringendswithnocase"@)
            ||| (name == "startswithnocase"@ && target == "stringstartswithnocase"@)
            ||| (name == "find"@ && target == "stringfind"@)
            ||| (name == "findnocase"@ && target == "stringfindnocase"@)
            ||| (name == "endswith"@ && target == "stringendswith"@)
            ||| (name == "startswith"@ && target == "stringstartswith"@)
            ||| (name == "tojson"@ && target == "serializejson"@)
            ||| (name == "fromjson"@ && target == "deserializejson"@)
            ||| (name == "jsformat"@ && target == "jsstringformat"@)
            ||| (name == "bind"@ && target == "stringbind"@)
        },
        ReceiverKind::Array => {
            ||| (name == "length"@ && target == "len"@)
            ||| (name == "count"@ && target == "len"@)
            ||| (name == "append"@ && target == "arrayappend"@)
            ||| (name == "add"@ && target == "arrayappend"@)
            ||| (name == "resize"@ && target == "arrayresize"@)
            ||| (name == "swap"@ && target == "arrayswap"@)
            ||| (name == "each"@ && target == "arrayeach"@)
            ||| (name == "map"@ && target == "arraymap"@)
            ||| (name == "reduce"@ && target == "arrayreduce"@)
            ||| (name == "filter"@ && target == "arrayfilter"@)
            ||| (name == "tolist"@ && target == "arraytolist"@)
            ||| (name == "tojson"@ && target == "serializejson"@)
        },
        ReceiverKind::Struct => {
            ||| (name == "count"@ && target == "len"@)
            ||| (name == "exists"@ && target == "structkeyexists"@)
            ||| (name == "keyexists"@ && target == "structkeyexists"@)
            ||| (name == "find"@ && target == "structfind"@)
            ||| (name == "isempty"@ && target == "structisempty"@)
            ||| (name == "each"@ && target == "structeach"@)
            ||| (name == "tojson"@ && target == "serializejson"@)
            ||| (name == "iscasesensitive"@ && target == "structiscasesensitive"@)
            ||| (name == "isordered"@ && target == "structisordered"@)
            ||| (name == "equals"@ && target == "structequals"@)
            ||| (name == "getmetadata"@ && target == "structgetmetadata"@)
            ||| (name == "toquerystring"@ && target == "structtoquerystring"@)
            ||| (name == "tosorted"@ && target == "structtosorted"@)
            ||| (name == "keytranslate"@ && target == "structkeytranslate"@)
            ||| (name == "findkey"@ && target == "structfindkey"@)
        },
        ReceiverKind::Future => {
            ||| (name == "onerror"@ && target == "futureonerror"@)
            ||| (name == "get"@ && target == "futureget"@)
        },
        ReceiverKind::DateTime => {
            ||| (name == "add"@ && target == "dateadd"@)
            ||| (name == "diff"@ && target == "datediff"@)
            ||| (name == "format"@ && target == "datetimeformat"@)
        },
        _ => false,
    }
}

/// A table entry calls the built-in of the method's own name, or is one of
/// the renamings.
pub open spec fn entry_ok(kind: ReceiverKind, e: (Seq<char>, Seq<char>)) -> bool {
    e.1 == e.0 || renamed(kind, e.0, e.1)
}

proof fn lemma_table_entries_ok(kind: ReceiverKind)
    ensures
        forall|i: int| 0 <= i < member_table(kind).len() ==> #[trigger] entry_ok(kind, member_table(kind)[i]),
{
    match kind {
        ReceiverKind::Number => {
            assert forall|i: int| 0 <= i < member_table(kind).len() implies #[trigger] entry_ok(kind, member_table(kind)[i]) by {
            if i == 0 {}
            else if i == 1 {}
            else if i == 2 {}
            else if i == 3 {}
            else if i == 4 {}
            else if i == 5 {}
            else if i == 6 {}
            else if i == 7 {}
            else if i == 8 {}
            else if i == 9 {}
            else if i == 10 {}
            else if i == 11 {}
            else if i == 12 {}
            }
        },
        ReceiverKind::String => {
            assert forall|i: int| 0 <= i < member_table(kind).len() implies #[trigger] entry_ok(kind, member_table(kind)[i]) by {
            if i == 0 {}
            else if i == 1 {}
            else if i == 2 {}
            else if i == 3 {}
            else if i == 4 {}
            else if i == 5 {}
            else if i == 6 {}
            else if i == 7 {}
            else if i == 8 {}
            else if i == 9 {}
            else if i == 10 {}
            else if i == 11 {}
            else if i == 12 {}
            else if i == 13 {}
            else if i == 14 {}
            else if i == 15 {}
            else if i == 16 {}
            else if i == 17 {}
            else if i == 18 {}
            else if i == 19 {}
            else if i == 20 {}
            else if i == 21 {}
            else if i == 22 {}
            else if i == 23 {}
            else if i == 24 {}
            else if i == 25 {}
            else if i == 26 {}
            else if i == 27 {}
            else if i == 28 {}
            else if i == 29 {}
            else if i == 30 {}
            else if i == 31 {}
            else if i == 32 {}
            else if i == 33 {}
            else if i == 34 {}
            else if i == 35 {}
            else if i == 36 {}
            else if i == 37 {}
            else if i == 38 {}
            else if i == 39 {}
            else if i == 40 {}
            else if i == 41 {}
            else if i == 42 {}
            else if i == 43 {}
            else if i == 44 {}
            else if i == 45 {}
            else if i == 46 {}
            else if i == 47 {}
            else if i == 48 {}
            else if i == 49 {}
            else if i == 50 {}
            else if i == 51 {}
            else if i == 52 {}
            else if i == 53 {}
            else if i == 54 {}
            else if i == 55 {}
            else if i == 56 {}
            else if i == 57 {}
            else if i == 58 {}
            else if i == 59 {}
            else if i == 60 {}
            else if i == 61 {}
            else if i == 62 {}
            else if i == 63 {}
            else if i == 64 {}
            else if i == 65 {}
            else if i == 66 {}
            else if i == 67 {}
            else if i == 68 {}
            else if i == 69 {}
            }
        },
        ReceiverKind::Array => {
            assert forall|i: int| 0 <= i < member_table(kind).len() implies #[trigger] entry_ok(kind, member_table(kind)[i]) by {
            if i == 0 {}
            else if i == 1 {}
            else if i == 2 {}
            else if i == 3 {}
            else if i == 4 {}
            else if i == 5 {}
            else if i == 6 {}
            else if i == 7 {}
            else if i == 8 {}
            else if i == 9 {}
            else if i == 10 {}
            else if i == 11 {}
            else if i == 12 {}
            else if i == 13 {}
            }
        },
        ReceiverKind::Struct => {
            assert forall|i: int| 0 <= i < member_table(kind).len() implies #[trigger] entry_ok(kind, member_table(kind)[i]) by {
            if i == 0 {}
            else if i == 1 {}
            else if i == 2 {}
            else if i == 3 {}
            else if i == 4 {}
            else if i == 5 {}
            else if i == 6 {}
            else if i == 7 {}
            else if i == 8 {}
            else if i == 9 {}
            else if i == 10 {}
            else if i == 11 {}
            else if i == 12 {}
            else if i == 13 {}
            else if i == 14 {}
            else if i == 15 {}
            else if i == 16 {}
            }
        },
        ReceiverKind::Future => {
            assert forall|i: int| 0 <= i < member_table(kind).len() implies #[trigger] entry_ok(kind, member_table(kind)[i]) by {
            if i == 0 {}
            else if i == 1 {}
            }
        },
        ReceiverKind::DateTime => {
            assert forall|i: int| 0 <= i < member_table(kind).len() implies #[trigger] entry_ok(kind, member_table(kind)[i]) by {
            if i == 0 {}
            else if i == 1 {}
            else if i == 2 {}
            else if i == 3 {}
            else if i == 4 {}
            else if i == 5 {}
            }
        },
        ReceiverKind::Other => {},
    }
}

proof fn lemma_first_target_entry(t: Seq<(Seq<char>, Seq<char>)>, name: Seq<char>) -> (i: int)
    requires
        first_target(t, name) is Some,
    ensures
        0 <= i < t.len(),
        t[i] == (name, first_target(t, name)->0),
    decreases t.len(),
{
    if t[0].0 == name {
        0
    } else {
        let j = lemma_first_target_entry(t.drop_first(), name);
        assert(t.drop_first()[j] == t[j + 1]);
        j + 1
    }
}

/// A method call resolves to the built-in of the method's own name
/// (`"s".lcase()` calls `lcase`, `n.abs()` calls `abs`), unless the method
/// is one of the renamings, which call the built-in they are listed with.
pub proof fn lemma_member_resolves_to_own_name(kind: ReceiverKind, name: Seq<char>)
    ensures
        member_method_spec(kind, name) matches Some(t) ==> t == name || renamed(kind, name, t),
{
    if member_method_spec(kind, name) is Some {
        let i = lemma_first_target_entry(member_table(kind), name);
        lemma_table_entries_ok(kind);
        assert(entry_ok(kind, member_table(kind)[i]));
    }
}

/// The views of a table of string pairs.
pub open spec fn pairs_v(t: Seq<(&str, &str)>) -> Seq<(Seq<char>, Seq<char>)> {
    t.map_values(|e: (&str, &str)| (e.0@, e.1@))
}

/// The method table of `kind`.
fn table_of(kind: ReceiverKind) -> (t: Vec<(&'static str, &'static str)>)
    ensures
        pairs_v(t@) == member_table(kind),
{
    match kind {
        ReceiverKind::Number => {
            let t = vec![
                ("abs", "abs"),
                ("round", "round"),
                ("floor", "floor"),
                ("log", "log"),
                ("log10", "log10"),
                ("exp", "exp"),
                ("sin", "sin"),
                ("cos", "cos"),
                ("tan", "tan"),
                ("asin", "asin"),
                ("acos", "acos"),
                ("atan", "atan"),
                ("atn", "atan"),
            ];
            assert(pairs_v(t@) =~= member_table(kind));
            t
        },
        ReceiverKind::String => {
            let t = vec![
                ("len", "len"),
                ("length", "len"),
                ("ucase", "ucase"),
                ("touppercase", "ucase"),
                ("lcase", "lcase"),
                ("tolowercase", "lcase"),
                ("split", "listtoarray"),
                ("trim", "trim"),
                ("ltrim", "ltrim"),
                ("rtrim", "rtrim"),
                ("compare", "compare"),
                ("comparenocase", "comparenocase"),
                ("removechars", "removechars"),
                ("stripcr", "stripcr"),
                ("ucfirst", "ucfirst"),
                ("replacenocase", "replacenocase"),
                ("endswithnocase", "stringendswithnocase"),
                ("startswithnocase", "stringstartswithnocase"),
                ("ascii", "ascii"),
                ("findoneof", "findoneof"),
                ("insert", "insert"),
                ("snakecase", "snakecase"),
                ("kebabcase", "kebabcase"),
                ("camelcase", "camelcase"),
                ("pascalcase", "pascalcase"),
                ("replacelist", "replacelist"),
                ("find", "stringfind"),
                ("findnocase", "stringfindnocase"),
                ("endswith", "stringendswith"),
                ("startswith", "stringstartswith"),
                ("val", "val"),
                ("tojson", "serializejson"),
                ("fromjson", "deserializejson"),
                ("rematch", "rematch"),
                ("rematchnocase", "rematchnocase"),
                ("refind", "refind"),
                ("refindnocase", "refindnocase"),
                ("rereplace", "rereplace"),
                ("rereplacenocase", "rereplacenocase"),
                ("hash", "hash"),
                ("hmac", "hmac"),
                ("indexof", "indexof"),
                ("left", "left"),
                ("right", "right"),
                ("mid", "mid"),
                ("reverse", "reverse"),
                ("spanexcluding", "spanexcluding"),
                ("spanincluding", "spanincluding"),
                ("replace", "replace"),
                ("listlen", "listlen"),
                ("listgetat", "listgetat"),
                ("listappend", "listappend"),
                ("listfirst", "listfirst"),
                ("listlast", "listlast"),
                ("listrest", "listrest"),
                ("listdeleteat", "listdeleteat"),
                ("listfind", "listfind"),
                ("listfindnocase", "listfindnocase"),
                ("listsort", "listsort"),
                ("jsformat", "jsstringformat"),
                ("jsstringformat", "jsstringformat"),
                ("ljustify", "ljustify"),
                ("rjustify", "rjustify"),
                ("paragraphformat", "paragraphformat"),
                ("slugify", "slugify"),
                ("wrap", "wrap"),
                ("bind", "stringbind"),
                ("stringbind", "stringbind"),
                ("charsetdecode", "charsetdecode"),
                ("sqlprettify", "sqlprettify"),
            ];
            assert(pairs_v(t@) =~= member_table(kind));
            t
        },
        ReceiverKind::Array => {
            let t = vec![
                ("len", "len"),
                ("length", "len"),
                ("count", "len"),
                ("append", "arrayappend"),
                ("add", "arrayappend"),
                ("resize", "arrayresize"),
                ("swap", "arrayswap"),
                ("each", "arrayeach"),
                ("map", "arraymap"),
                ("reduce", "arrayreduce"),
                ("filter", "arrayfilter"),
                ("tolist", "arraytolist"),
                ("tojson", "serializejson"),
                ("duplicate", "duplicate"),
            ];
            assert(pairs_v(t@) =~= member_table(kind));
            t
        },
        ReceiverKind::Struct => {
            let t = vec![
                ("len", "len"),
                ("count", "len"),
                ("exists", "structkeyexists"),
                ("keyexists", "structkeyexists"),
                ("find", "structfind"),
                ("isempty", "structisempty"),
                ("each", "structeach"),
                ("tojson", "serializejson"),
                ("duplicate", "duplicate"),
                ("iscasesensitive", "structiscasesensitive"),
                ("isordered", "structisordered"),
                ("equals", "structequals"),
                ("getmetadata", "structgetmetadata"),
                ("toquerystring", "structtoquerystring"),
                ("tosorted", "structtosorted"),
                ("keytranslate", "structkeytranslate"),
                ("findkey", "structfindkey"),
            ];
            assert(pairs_v(t@) =~= member_table(kind));
            t
        },
        ReceiverKind::Future => {
            let t = vec![
                ("onerror", "futureonerror"),
                ("get", "futureget"),
            ];
            assert(pairs_v(t@) =~= member_table(kind));
            t
        },
        ReceiverKind::DateTime => {
            let t = vec![
                ("add", "dateadd"),
                ("diff", "datediff"),
                ("format", "datetimeformat"),
                ("dateformat", "dateformat"),
                ("datetimeformat", "datetimeformat"),
                ("duplicate", "duplicate"),
            ];
            assert(pairs_v(t@) =~= member_table(kind));
            t
        },
        ReceiverKind::Other => {
            let t: Vec<(&'static str, &'static str)> = Vec::new();
            assert(pairs_v(t@) =~= member_table(kind));
            t
        },
    }
}

/// The built-in function that `method_name` (compared in ASCII lower
/// case) calls on a value of `receiver`'s kind, if the kind has that
/// method.
pub fn member_method(receiver: ReceiverKind, method_name: &str) -> (r: Option<String>)
    ensures
        match member_method_spec(receiver, ascii_lower(method_name@)) {
            Some(t) => r matches Some(x) && x@ == t,
            None => r is None,
        },
{
    let name = to_ascii_lower(method_name);
    let table = table_of(receiver);
    let ghost tv = pairs_v(table@);
    let mut i: usize = 0;
    proof {
        assert(tv.skip(0) =~= tv);
    }
    while i < table.len()
        invariant
            i <= table@.len(),
            tv == pairs_v(table@),
            tv == member_table(receiver),
            name@ == ascii_lower(method_name@),
            first_target(tv, name@) == first_target(tv.skip(i as int), name@),
        decreases table.len() - i,
    {
        assert(tv.skip(i as int)[0] == tv[i as int]);
        assert(tv.skip(i as int).drop_first() =~= tv.skip(i + 1));
        let (key, target) = table[i];
        if str_eq(key, name.as_str()) {
            return Some(target.to_owned());
        }
        i = i + 1;
    }
    None
}

} // verus!
