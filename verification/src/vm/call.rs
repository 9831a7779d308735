//! Binding the arguments of a call to a function's parameters.
use vstd::prelude::*;
use crate::text::{lowercase, to_lowercase, str_eq};

verus! {

/// The arguments of a call split into the positional ones, in order, and
/// the named ones, in order, with their names in lower case. Argument `i`
/// is named when `names` has a non-empty entry at `i`.
pub open spec fn split_args<V>(args: Seq<V>, names: Seq<Seq<char>>) -> (Seq<V>, Seq<(Seq<char>, V)>)
    decreases args.len(),
{
    if args.len() == 0 {
        (Seq::empty(), Seq::empty())
    } else {
        let (pos, named) = split_args(args.drop_last(), names);
        let i = args.len() - 1;
        if i < names.len() && names[i].len() > 0 {
            (pos, named.push((lowercase(names[i]), args[i])))
        } else {
            (pos.push(args[i]), named)
        }
    }
}

/// The position of the first parameter whose lower-case form is `name`.
pub open spec fn param_position(params: Seq<Seq<char>>, name: Seq<char>) -> Option<int>
    decreases params.len(),
{
    if params.len() == 0 {
        None
    } else {
        match param_position(params.drop_last(), name) {
            Some(j) => Some(j),
            None => if lowercase(params.last()) == name {
                Some(params.len() - 1)
            } else {
                None
            },
        }
    }
}

/// `slots` after each named argument, in order, was stored at the parameter
/// of its name; a name that matches no parameter is dropped.
pub open spec fn apply_named<V>(slots: Seq<V>, params: Seq<Seq<char>>, named: Seq<(Seq<char>, V)>) -> Seq<V>
    decreases named.len(),
{
    if named.len() == 0 {
        slots
    } else {
        let before = apply_named(slots, params, named.drop_last());
        match param_position(params, named.last().0) {
            Some(j) => before.update(j, named.last().1),
            None => before,
        }
    }
}

/// The value of each parameter: the positional arguments fill the first
/// parameters in order, missing ones are `null`, and then each named
/// argument replaces the parameter of its name (names compared in lower
/// case; later ones win).
pub open spec fn bound_args<V>(args: Seq<V>, names: Seq<Seq<char>>, params: Seq<Seq<char>>, null: V) -> Seq<V> {
    let (pos, named) = split_args(args, names);
    apply_named(
        Seq::new(params.len(), |j: int| if j < pos.len() { pos[j] } else { null }),
        params,
        named,
    )
}

/// The views of a list of strings.
pub open spec fn texts(v: Seq<String>) -> Seq<Seq<char>> {
    v.map_values(|s: String| s@)
}

proof fn lemma_param_position_bounds(params: Seq<Seq<char>>, name: Seq<char>)
    ensures
        param_position(params, name) matches Some(j) ==> 0 <= j < params.len() && lowercase(params[j]) == name,
        param_position(params, name) is None ==> forall|j: int| 0 <= j < params.len() ==> lowercase(#[trigger] params[j]) != name,
    decreases params.len(),
{
    if params.len() > 0 {
        lemma_param_position_bounds(params.drop_last(), name);
        assert forall|j: int| 0 <= j < params.len() - 1 implies params.drop_last()[j] == params[j] by {}
    }
}

proof fn lemma_apply_named_len<V>(slots: Seq<V>, params: Seq<Seq<char>>, named: Seq<(Seq<char>, V)>)
    requires
        slots.len() == params.len(),
    ensures
        apply_named(slots, params, named).len() == params.len(),
    decreases named.len(),
{
    if named.len() > 0 {
        lemma_apply_named_len(slots, params, named.drop_last());
        lemma_param_position_bounds(params, named.last().0);
    }
}

/// Orders the arguments of a call as the parameters `params` expect them
/// (see `bound_args`). `names[i]` is the name of argument `i`, empty for
/// a positional argument; `null` fills parameters that get no argument.
pub fn reorder_arguments<V: Copy>(args: Vec<V>, names: Vec<String>, params: &Vec<String>, null: V) -> (r: Vec<V>)
    ensures
        r@ == bound_args(args@, texts(names@), texts(params@), null),
{
    let ghost nm = texts(names@);
    let ghost ps = texts(params@);
    let mut positional: Vec<V> = Vec::new();
    let mut named: Vec<(String, V)> = Vec::new();
    let mut i: usize = 0;
    while i < args.len()
        invariant
            i <= args@.len(),
            nm == texts(names@),
            ({
                let (p, n) = split_args(args@.take(i as int), nm);
                &&& positional@ == p
                &&& texts_named(named@) == n
            }),
        decreases args.len() - i,
    {
        proof {
            assert(args@.take(i + 1).drop_last() =~= args@.take(i as int));
        }
        if i < names.len() && !names[i].as_str().is_empty() {
            let lower = to_lowercase(names[i].as_str());
            let ghost n0 = named@;
            named.push((lower, args[i]));
            proof {
                assert(texts_named(named@) =~= texts_named(n0).push((lowercase(nm[i as int]), args@[i as int])));
            }
        } else {
            positional.push(args[i]);
        }
        i = i + 1;
    }
    proof {
        assert(args@.take(i as int) =~= args@);
    }
    let mut lowered: Vec<String> = Vec::new();
    let mut j: usize = 0;
    while j < params.len()
        invariant
            j <= params@.len(),
            ps == texts(params@),
            lowered@.len() == j,
            forall|k: int| 0 <= k < j ==> (#[trigger] lowered@[k])@ == lowercase(ps[k]),
        decreases params.len() - j,
    {
        lowered.push(to_lowercase(params[j].as_str()));
        j = j + 1;
    }
    let mut out: Vec<V> = Vec::new();
    let mut j: usize = 0;
    while j < params.len()
        invariant
            j <= params@.len(),
            out@ =~= Seq::new(j as nat, |k: int| if k < positional@.len() { positional@[k] } else { null }),
        decreases params.len() - j,
    {
        if j < positional.len() {
            out.push(positional[j]);
        } else {
            out.push(null);
        }
        j = j + 1;
    }
    let ghost base = out@;
    let mut k: usize = 0;
    while k < named.len()
        invariant
            k <= named@.len(),
            ps == texts(params@),
            ps.len() == params@.len(),
            lowered@.len() == ps.len(),
            forall|q: int| 0 <= q < ps.len() ==> (#[trigger] lowered@[q])@ == lowercase(ps[q]),
            base.len() == ps.len(),
            out@ == apply_named(base, ps, texts_named(named@).take(k as int)),
        decreases named.len() - k,
    {
        let ghost n = texts_named(named@);
        proof {
            assert(n.take(k + 1).drop_last() =~= n.take(k as int));
            lemma_apply_named_len(base, ps, n.take(k as int));
            lemma_param_position_bounds(ps, n[k as int].0);
        }
        let mut q: usize = 0;
        let mut found: Option<usize> = None;
        while q < lowered.len() && found.is_none()
            invariant
                q <= lowered@.len(),
                lowered@.len() == ps.len(),
                forall|x: int| 0 <= x < ps.len() ==> (#[trigger] lowered@[x])@ == lowercase(ps[x]),
                0 <= k < n.len(),
                n == texts_named(named@),
                forall|x: int| 0 <= x < q ==> lowercase(#[trigger] ps[x]) != n[k as int].0,
                found matches Some(x) ==> x == q && q < ps.len() && lowercase(ps[x as int]) == n[k as int].0,
            decreases lowered.len() - q + (if found is None { 1int } else { 0int }),
        {
            let ghost lq = lowered@[q as int]@;
            if str_eq(lowered[q].as_str(), named[k].0.as_str()) {
                assert(n[k as int].0 == named@[k as int].0@);
                assert(lq == lowercase(ps[q as int]));
                found = Some(q);
            } else {
                assert(n[k as int].0 == named@[k as int].0@);
                assert(lq == lowercase(ps[q as int]));
                q = q + 1;
            }
        }
        proof {
            lemma_first_match(ps, n[k as int].0);
            assert(n.take(k + 1).last() == n[k as int]);
            assert(n[k as int].1 == named@[k as int].1);
        }
        match found {
            Some(x) => {
                out.set(x, named[k].1);
            },
            None => {},
        }
        k = k + 1;
    }
    proof {
        assert(texts_named(named@).take(k as int) =~= texts_named(named@));
    }
    out
}

/// The named arguments as values.
pub open spec fn texts_named<V>(v: Seq<(String, V)>) -> Seq<(Seq<char>, V)> {
    v.map_values(|e: (String, V)| (e.0@, e.1))
}

/// `param_position` is the first index whose lower-case form is `name`.
proof fn lemma_first_match(params: Seq<Seq<char>>, name: Seq<char>)
    ensures
        forall|x: int| 0 <= x < params.len() && lowercase(params[x]) == name
            && (forall|y: int| 0 <= y < x ==> lowercase(#[trigger] params[y]) != name)
            ==> param_position(params, name) == Some(x),
        (forall|x: int| 0 <= x < params.len() ==> lowercase(#[trigger] params[x]) != name)
            ==> param_position(params, name) is None,
    decreases params.len(),
{
    if params.len() > 0 {
        lemma_first_match(params.drop_last(), name);
        lemma_param_position_bounds(params.drop_last(), name);
        assert forall|x: int| 0 <= x < params.len() - 1 implies params.drop_last()[x] == params[x] by {}
    }
}

/// A call without named arguments passes its arguments to the first
/// parameters in order; extra arguments are dropped and missing ones are
/// `null`.
pub proof fn lemma_positional_call<V>(args: Seq<V>, params: Seq<Seq<char>>, null: V)
    ensures
        bound_args(args, Seq::empty(), params, null)
            == Seq::new(params.len(), |j: int| if j < args.len() { args[j] } else { null }),
{
    lemma_split_unnamed(args);
}

/// Without names every argument is positional.
proof fn lemma_split_unnamed<V>(args: Seq<V>)
    ensures
        split_args(args, Seq::empty()) == (args, Seq::<(Seq<char>, V)>::empty()),
    decreases args.len(),
{
    if args.len() > 0 {
        lemma_split_unnamed(args.drop_last());
        assert(args.drop_last().push(args.last()) =~= args);
    }
}


/// The arguments of a call without names, fitted to a function of `arity`
/// parameters: missing ones are `null`, extra ones are dropped.
pub fn pad_to_arity<V: Copy>(args: Vec<V>, arity: usize, null: V) -> (r: Vec<V>)
    ensures
        r@ == Seq::new(arity as nat, |j: int| if j < args@.len() { args@[j] } else { null }),
{
    let mut a = args;
    let ghost a0 = a@;
    if arity > a.len() {
        let missing = arity - a.len();
        let mut k: usize = 0;
        while k < missing
            invariant
                k <= missing,
                missing == arity - a0.len(),
                a@ =~= a0 + Seq::new(k as nat, |j: int| null),
            decreases missing - k,
        {
            a.push(null);
            k = k + 1;
        }
    } else if a.len() > arity {
        a.truncate(arity);
    }
    assert(a@ =~= Seq::new(arity as nat, |j: int| if j < a0.len() { a0[j] } else { null }));
    a
}

} // verus!
