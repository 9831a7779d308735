//! String interning: each string gets a small id; lookups ignore case, and
//! the first spelling seen is the one presented.
use vstd::prelude::*;
use crate::text::{lowercase, to_lowercase, str_eq};
use crate::assoc::{
    entries_v, distinct_keys, values_below, lookup, put, find_key, get, insert, lemma_lookup_put,
    lemma_put_distinct, lemma_put_below, lemma_lookup_below, lemma_lookup_some, lemma_put_push,
};

verus! {

pub type InternId = u32;

/// The interned strings, the lowercase lookup and the exact-spelling lookup.
pub struct StringInterner {
    strings: Vec<String>,
    lookup: Vec<(String, u32)>,
    exact_lookup: Vec<(String, u32)>,
}

/// An interner, mathematically: the presented spelling of each id, the ids
/// by lowercase form, and the ids by exact spelling.
pub struct InternerView {
    pub strings: Seq<Seq<char>>,
    pub lookup: Seq<(Seq<char>, u32)>,
    pub exact: Seq<(Seq<char>, u32)>,
}

/// Tables with distinct keys whose ids all name interned strings.
pub open spec fn interner_wf(v: InternerView) -> bool {
    &&& distinct_keys(v.lookup)
    &&& distinct_keys(v.exact)
    &&& values_below(v.lookup, v.strings.len() as int)
    &&& values_below(v.exact, v.strings.len() as int)
}

/// Binds `s` to `id` in the exact table unless it is bound already.
pub open spec fn exact_or_insert(exact: Seq<(Seq<char>, u32)>, s: Seq<char>, id: u32) -> Seq<(Seq<char>, u32)> {
    if lookup(exact, s) is Some {
        exact
    } else {
        put(exact, s, id)
    }
}

/// Case-insensitive interning: an id already known for the lowercase form
/// is returned (its presented spelling upgraded from the all-lowercase one
/// to `s` when they differ); else `s` gets the next id.
pub open spec fn intern_spec(v: InternerView, s: Seq<char>) -> (InternerView, u32) {
    let low = lowercase(s);
    match lookup(v.lookup, low) {
        Some(id) => {
            let strings = if (id as int) < v.strings.len() && v.strings[id as int] == low && s != low {
                v.strings.update(id as int, s)
            } else {
                v.strings
            };
            (InternerView { strings, lookup: v.lookup, exact: exact_or_insert(v.exact, s, id) }, id)
        },
        None => {
            let id = v.strings.len() as u32;
            (
                InternerView {
                    strings: v.strings.push(s),
                    lookup: put(v.lookup, low, id),
                    exact: exact_or_insert(v.exact, s, id),
                },
                id,
            )
        },
    }
}

/// Case-sensitive interning: the id of this exact spelling, else the next id.
pub open spec fn intern_exact_spec(v: InternerView, s: Seq<char>) -> (InternerView, u32) {
    match lookup(v.exact, s) {
        Some(id) => (v, id),
        None => {
            let id = v.strings.len() as u32;
            (InternerView { strings: v.strings.push(s), lookup: v.lookup, exact: put(v.exact, s, id) }, id)
        },
    }
}

impl View for StringInterner {
    type V = InternerView;

    closed spec fn view(&self) -> InternerView {
        InternerView {
            strings: self.strings@.map_values(|x: String| x@),
            lookup: entries_v(self.lookup@),
            exact: entries_v(self.exact_lookup@),
        }
    }
}

proof fn lemma_exact_or_insert(exact: Seq<(Seq<char>, u32)>, s: Seq<char>, id: u32, n: int)
    requires
        distinct_keys(exact),
        values_below(exact, n),
        (id as int) < n,
    ensures
        distinct_keys(exact_or_insert(exact, s, id)),
        values_below(exact_or_insert(exact, s, id), n),
        lookup(exact_or_insert(exact, s, id), s) is Some,
{
    if lookup(exact, s) is None {
        lemma_put_distinct(exact, s, id);
        lemma_put_below(exact, s, id, n);
        lemma_lookup_put(exact, s, id, s);
    }
}

proof fn lemma_below_mono(e: Seq<(Seq<char>, u32)>, n: int, m: int)
    requires
        values_below(e, n),
        n <= m,
    ensures
        values_below(e, m),
{
}

impl StringInterner {
    /// The interner's invariant: its tables are well formed and every
    /// lowercase key names an id whose spelling has that lowercase form.
    pub open spec fn wf(&self) -> bool {
        interner_wf(self@) && lookup_sound(self@)
    }

    pub fn new() -> (r: Self)
        ensures
            r.wf(),
            r@.strings.len() == 0,
            r@.lookup.len() == 0,
            r@.exact.len() == 0,
            case_folded(r@),
            exact_faithful(r@),
    {
        let r = StringInterner { strings: Vec::new(), lookup: Vec::new(), exact_lookup: Vec::new() };
        assert(r@.lookup =~= seq![]);
        assert(r@.exact =~= seq![]);
        assert(lookup_sound(r@));
        r
    }

    /// Intern a string: preserve the first casing seen for presentation,
    /// but use its lowercase form for deduplication (case-insensitivity).
    pub fn intern(&mut self, s: &str) -> (id: InternId)
        requires
            old(self).wf(),
            old(self)@.strings.len() < u32::MAX,
        ensures
            final(self).wf(),
            (final(self)@, id) == intern_spec(old(self)@, s@),
            lookup(final(self)@.lookup, lowercase(s@)) == Some(id),
            lookup(final(self)@.exact, s@) is Some,
            (id as int) < final(self)@.strings.len(),
            lowercase(final(self)@.strings[id as int]) == lowercase(s@),
    {
        let ghost v0 = self@;
        proof {
            lemma_intern_resolves_lowercase(v0, s@);
        }
        let lowered = to_lowercase(s);
        match get(&self.lookup, lowered.as_str()) {
            Some(id) => {
                proof {
                    lemma_lookup_below(v0.lookup, lowered@, v0.strings.len() as int);
                    lemma_exact_or_insert(v0.exact, s@, id, v0.strings.len() as int);
                }
                if find_key(&self.exact_lookup, s).is_none() {
                    insert(&mut self.exact_lookup, s, id);
                }
                let idx = id as usize;
                if idx < self.strings.len() {
                    if self.strings[idx] == lowered && !str_eq(s, lowered.as_str()) {
                        self.strings.set(idx, s.to_owned());
                    }
                }
                assert(self@.strings =~= intern_spec(v0, s@).0.strings);
                return id;
            },
            None => {},
        }
        let id = self.strings.len() as u32;
        self.strings.push(s.to_owned());
        insert(&mut self.lookup, lowered.as_str(), id);
        proof {
            lemma_put_distinct(v0.lookup, lowered@, id);
            lemma_below_mono(v0.lookup, v0.strings.len() as int, (v0.strings.len() + 1) as int);
            lemma_below_mono(v0.exact, v0.strings.len() as int, (v0.strings.len() + 1) as int);
            lemma_put_below(v0.lookup, lowered@, id, (v0.strings.len() + 1) as int);
            lemma_lookup_put(v0.lookup, lowered@, id, lowered@);
            lemma_exact_or_insert(v0.exact, s@, id, (v0.strings.len() + 1) as int);
        }
        if find_key(&self.exact_lookup, s).is_none() {
            insert(&mut self.exact_lookup, s, id);
        }
        assert(self@.strings =~= v0.strings.push(s@));
        id
    }

    /// Intern a key without case folding. Case-sensitive structs use this
    /// path so distinct spellings can occupy distinct shape fields.
    pub fn intern_case_sensitive(&mut self, s: &str) -> (id: InternId)
        requires
            old(self).wf(),
            old(self)@.strings.len() < u32::MAX,
        ensures
            final(self).wf(),
            (final(self)@, id) == intern_exact_spec(old(self)@, s@),
            lookup(final(self)@.exact, s@) == Some(id),
            (id as int) < final(self)@.strings.len(),
    {
        let ghost v0 = self@;
        proof {
            lemma_intern_exact_keeps_lookup_sound(v0, s@);
        }
        if let Some(id) = get(&self.exact_lookup, s) {
            proof {
                lemma_lookup_below(v0.exact, s@, v0.strings.len() as int);
            }
            return id;
        }
        let id = self.strings.len() as u32;
        self.strings.push(s.to_owned());
        insert(&mut self.exact_lookup, s, id);
        proof {
            lemma_put_distinct(v0.exact, s@, id);
            lemma_below_mono(v0.lookup, v0.strings.len() as int, (v0.strings.len() + 1) as int);
            lemma_below_mono(v0.exact, v0.strings.len() as int, (v0.strings.len() + 1) as int);
            lemma_put_below(v0.exact, s@, id, (v0.strings.len() + 1) as int);
            lemma_lookup_put(v0.exact, s@, id, s@);
        }
        assert(self@.strings =~= v0.strings.push(s@));
        id
    }

    /// Resolve an id back to its presented spelling.
    pub fn resolve(&self, id: InternId) -> (r: &str)
        requires
            (id as int) < self@.strings.len(),
        ensures
            r@ == self@.strings[id as int],
    {
        self.strings[id as usize].as_str()
    }

    /// Read-only lookup (no insert), ignoring case.
    pub fn get_id(&self, s: &str) -> (r: Option<InternId>)
        ensures
            r == lookup(self@.lookup, lowercase(s@)),
    {
        let lowered = to_lowercase(s);
        get(&self.lookup, lowered.as_str())
    }

    /// Read-only lookup of an exact spelling.
    pub fn get_exact_id(&self, s: &str) -> (r: Option<InternId>)
        ensures
            r == lookup(self@.exact, s@),
    {
        get(&self.exact_lookup, s)
    }
}

/// Interning gives every spelling of the same lowercase form one id: after
/// `a` is interned, interning any `b` with the same lowercase form returns
/// the id `a` got.
pub proof fn lemma_intern_ignores_case(v: InternerView, a: Seq<char>, b: Seq<char>)
    requires
        interner_wf(v),
        lowercase(a) == lowercase(b),
    ensures
        intern_spec(intern_spec(v, a).0, b).1 == intern_spec(v, a).1,
{
    let low = lowercase(a);
    if lookup(v.lookup, low) is None {
        lemma_lookup_put(v.lookup, low, v.strings.len() as u32, low);
    }
}

/// Case-sensitive interning is stable: interning the same spelling again
/// returns the same id and changes nothing.
pub proof fn lemma_intern_exact_stable(v: InternerView, s: Seq<char>)
    ensures
        intern_exact_spec(intern_exact_spec(v, s).0, s) == (intern_exact_spec(v, s).0, intern_exact_spec(v, s).1),
{
    if lookup(v.exact, s) is None {
        lemma_lookup_put(v.exact, s, v.strings.len() as u32, s);
    }
}

/// A spelling new to the exact table gets a fresh id, distinct from every id
/// handed out before, and resolves to itself.
pub proof fn lemma_intern_exact_fresh(v: InternerView, s: Seq<char>)
    requires
        lookup(v.exact, s) is None,
        v.strings.len() < u32::MAX,
    ensures
        intern_exact_spec(v, s).1 == v.strings.len(),
        intern_exact_spec(v, s).0.strings[v.strings.len() as int] == s,
        forall|i: int| 0 <= i < v.strings.len() ==> intern_exact_spec(v, s).0.strings[i] == v.strings[i],
{
}


/// An interner used only through `intern`: the lookup table binds, in id
/// order, each id to the lowercase form of its presented spelling.
pub open spec fn case_folded(v: InternerView) -> bool {
    &&& v.lookup.len() == v.strings.len()
    &&& forall|k: int| 0 <= k < v.lookup.len() ==> (#[trigger] v.lookup[k]).1 == k
    &&& forall|k: int| 0 <= k < v.lookup.len() ==> lowercase(v.strings[k]) == (#[trigger] v.lookup[k]).0
}

/// An interner used only through `intern_case_sensitive`: each exact
/// spelling is bound to an id that presents that spelling.
pub open spec fn exact_faithful(v: InternerView) -> bool {
    forall|k: int| 0 <= k < v.exact.len() ==>
        (#[trigger] v.exact[k]).1 < v.strings.len() && v.strings[v.exact[k].1 as int] == v.exact[k].0
}

/// In a case-folded interner, the id found for a lowercase form presents a
/// spelling with that lowercase form.
proof fn lemma_folded_lookup(v: InternerView, low: Seq<char>)
    requires
        case_folded(v),
        lookup(v.lookup, low) is Some,
    ensures
        (lookup(v.lookup, low)->0 as int) < v.strings.len(),
        v.lookup[lookup(v.lookup, low)->0 as int].0 == low,
        lowercase(v.strings[lookup(v.lookup, low)->0 as int]) == low,
{
    lemma_lookup_some(v.lookup, low);
    let i = choose|i: int| 0 <= i < v.lookup.len() && (#[trigger] v.lookup[i]).0 == low
        && v.lookup[i].1 == lookup(v.lookup, low)->0;
    assert(v.lookup[i].1 == i);
}

/// Interning keeps an interner case-folded. The id it returns presents a
/// spelling with the lowercase form of `s`; it is a new id, the number of
/// lowercase forms interned before, exactly when that form is new.
pub proof fn lemma_intern_folded(v: InternerView, s: Seq<char>)
    requires
        interner_wf(v),
        case_folded(v),
        v.strings.len() < u32::MAX,
    ensures
        case_folded(intern_spec(v, s).0),
        lowercase(intern_spec(v, s).0.strings[intern_spec(v, s).1 as int]) == lowercase(s),
        (intern_spec(v, s).1 as int) < intern_spec(v, s).0.strings.len(),
        lookup(intern_spec(v, s).0.lookup, lowercase(s)) == Some(intern_spec(v, s).1),
        (intern_spec(v, s).1 == v.lookup.len()) <==> lookup(v.lookup, lowercase(s)) is None,
{
    let low = lowercase(s);
    match lookup(v.lookup, low) {
        Some(id) => {
            lemma_folded_lookup(v, low);
        },
        None => {
            assert forall|j: int| 0 <= j < v.lookup.len() implies (#[trigger] v.lookup[j]).0 != low by {
                if v.lookup[j].0 == low {
                    lemma_first_key(v.lookup, low, j);
                }
            }
            lemma_put_push(v.lookup, low, v.strings.len() as u32);
            lemma_lookup_put(v.lookup, low, v.strings.len() as u32, low);
        },
    }
}

/// Two strings interned one after the other into a case-folded interner
/// get the same id exactly when their lowercase forms are equal.
pub proof fn lemma_intern_same_id_iff_same_lowercase(v: InternerView, a: Seq<char>, b: Seq<char>)
    requires
        interner_wf(v),
        case_folded(v),
        v.strings.len() + 1 < u32::MAX,
    ensures
        (intern_spec(intern_spec(v, a).0, b).1 == intern_spec(v, a).1) <==> lowercase(a) == lowercase(b),
{
    let (v1, ida) = intern_spec(v, a);
    lemma_intern_folded(v, a);
    if lowercase(a) == lowercase(b) {
        lemma_intern_ignores_case(v, a, b);
    } else {
        let lb = lowercase(b);
        match lookup(v1.lookup, lb) {
            Some(x) => {
                lemma_folded_lookup(v1, lb);
                assert(v1.lookup[x as int].1 == x);
                if x == ida {
                    assert(lookup(v1.lookup, lowercase(a)) == Some(ida));
                    lemma_folded_lookup(v1, lowercase(a));
                }
            },
            None => {},
        }
    }
}

/// Interning a spelling case-sensitively into an interner used only that
/// way keeps it so, and the id returned resolves to that exact spelling.
pub proof fn lemma_intern_exact_resolves(v: InternerView, s: Seq<char>)
    requires
        interner_wf(v),
        exact_faithful(v),
        v.strings.len() < u32::MAX,
    ensures
        exact_faithful(intern_exact_spec(v, s).0),
        (intern_exact_spec(v, s).1 as int) < intern_exact_spec(v, s).0.strings.len(),
        intern_exact_spec(v, s).0.strings[intern_exact_spec(v, s).1 as int] == s,
{
    match lookup(v.exact, s) {
        Some(id) => {
            lemma_lookup_some(v.exact, s);
        },
        None => {
            assert forall|j: int| 0 <= j < v.exact.len() implies (#[trigger] v.exact[j]).0 != s by {
                if v.exact[j].0 == s {
                    lemma_first_key(v.exact, s, j);
                }
            }
            lemma_put_push(v.exact, s, v.strings.len() as u32);
        },
    }
}

/// Every lowercase key of the lookup table names an interned id whose
/// presented spelling has that lowercase form.
pub open spec fn lookup_sound(v: InternerView) -> bool {
    forall|k: int|
        0 <= k < v.lookup.len() ==> ((#[trigger] v.lookup[k]).1 as int) < v.strings.len() && lowercase(
            v.strings[v.lookup[k].1 as int],
        ) == v.lookup[k].0
}

/// Whatever mix of case-insensitive and case-sensitive interning came
/// before, interning `s` keeps the lookup sound and returns an id whose
/// presented spelling has the lowercase form of `s`: resolving the id of
/// `intern(s)` gives `s` up to case.
pub proof fn lemma_intern_resolves_lowercase(v: InternerView, s: Seq<char>)
    requires
        interner_wf(v),
        lookup_sound(v),
        v.strings.len() < u32::MAX,
    ensures
        lookup_sound(intern_spec(v, s).0),
        (intern_spec(v, s).1 as int) < intern_spec(v, s).0.strings.len(),
        lowercase(intern_spec(v, s).0.strings[intern_spec(v, s).1 as int]) == lowercase(s),
{
    let low = lowercase(s);
    let (v1, id) = intern_spec(v, s);
    match lookup(v.lookup, low) {
        Some(x) => {
            lemma_lookup_some(v.lookup, low);
            let i = choose|i: int| 0 <= i < v.lookup.len() && (#[trigger] v.lookup[i]).0 == low
                && v.lookup[i].1 == x;
            assert(v.lookup[i].1 == x);
            assert(lowercase(v.strings[x as int]) == low);
            assert forall|k: int| 0 <= k < v1.lookup.len() implies ((#[trigger] v1.lookup[k]).1 as int)
                < v1.strings.len() && lowercase(v1.strings[v1.lookup[k].1 as int]) == v1.lookup[k].0 by {
                if v.lookup[k].1 == x {
                    assert(v.lookup[k].0 == lowercase(v.strings[x as int]));
                }
            }
        },
        None => {
            assert forall|j: int| 0 <= j < v.lookup.len() implies (#[trigger] v.lookup[j]).0 != low by {
                if v.lookup[j].0 == low {
                    lemma_first_key(v.lookup, low, j);
                }
            }
            lemma_put_push(v.lookup, low, v.strings.len() as u32);
            assert forall|k: int| 0 <= k < v1.lookup.len() implies ((#[trigger] v1.lookup[k]).1 as int)
                < v1.strings.len() && lowercase(v1.strings[v1.lookup[k].1 as int]) == v1.lookup[k].0 by {
                if k < v.lookup.len() {
                    assert(v1.lookup[k] == v.lookup[k]);
                }
            }
        },
    }
}

/// Case-sensitive interning keeps the lookup sound.
pub proof fn lemma_intern_exact_keeps_lookup_sound(v: InternerView, s: Seq<char>)
    requires
        lookup_sound(v),
    ensures
        lookup_sound(intern_exact_spec(v, s).0),
{
    let v1 = intern_exact_spec(v, s).0;
    assert forall|k: int| 0 <= k < v1.lookup.len() implies ((#[trigger] v1.lookup[k]).1 as int) < v1.strings.len()
        && lowercase(v1.strings[v1.lookup[k].1 as int]) == v1.lookup[k].0 by {
        assert(v1.lookup[k] == v.lookup[k]);
    }
}

/// A key present at some position makes `lookup` find something.
proof fn lemma_first_key(e: Seq<(Seq<char>, u32)>, k: Seq<char>, j: int)
    requires
        0 <= j < e.len(),
        e[j].0 == k,
    ensures
        lookup(e, k) is Some,
    decreases j,
{
    if e[0].0 != k {
        assert(e.drop_first()[j - 1] == e[j]);
        lemma_first_key(e.drop_first(), k, j - 1);
    }
}

} // verus!
