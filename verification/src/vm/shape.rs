//! Hidden-class shapes: each shape maps field names to slot indices, and
//! adding a field to a shape leads, through a recorded transition, to the
//! same child shape every time.
use vstd::prelude::*;
use crate::assoc::{
    entries_v, distinct_keys, values_below, lookup, put, get, insert, clone_entries,
    lemma_lookup_put, lemma_put_distinct, lemma_put_entries, lemma_put_below, lemma_lookup_below, lemma_lookup_some,
};

verus! {

pub type ShapeId = u32;

/// A shape: field name to slot index, and field name to the child shape
/// that adds it.
#[derive(Debug, Clone, PartialEq)]
pub struct Shape {
    pub fields: Vec<(String, u32)>,
    pub transitions: Vec<(String, ShapeId)>,
}

pub struct ShapeView {
    pub fields: Seq<(Seq<char>, u32)>,
    pub transitions: Seq<(Seq<char>, u32)>,
}

pub open spec fn shape_v(s: Shape) -> ShapeView {
    ShapeView { fields: entries_v(s.fields@), transitions: entries_v(s.transitions@) }
}

pub open spec fn shapes_v(v: Seq<Shape>) -> Seq<ShapeView> {
    v.map_values(|s: Shape| shape_v(s))
}

/// Tables with distinct keys, and every transition leads to an existing
/// shape that has the field it is named after.
pub open spec fn registry_wf(reg: Seq<ShapeView>) -> bool {
    &&& forall|s: int| 0 <= s < reg.len() ==> distinct_keys((#[trigger] reg[s]).fields)
    &&& forall|s: int| 0 <= s < reg.len() ==> distinct_keys((#[trigger] reg[s]).transitions)
    &&& forall|s: int| 0 <= s < reg.len() ==> values_below((#[trigger] reg[s]).transitions, reg.len() as int)
    &&& forall|s: int, i: int|
        0 <= s < reg.len() && 0 <= i < reg[s].transitions.len() ==> lookup(
            reg[(#[trigger] reg[s].transitions[i]).1 as int].fields,
            reg[s].transitions[i].0,
        ) is Some
}

/// Adding field `f` to shape `cur`: the recorded child if there is one;
/// else a new shape with `cur`'s fields plus `f` at the next slot, recorded
/// as `cur`'s transition for `f`.
pub open spec fn transition_spec(reg: Seq<ShapeView>, cur: int, f: Seq<char>) -> (Seq<ShapeView>, u32) {
    match lookup(reg[cur].transitions, f) {
        Some(next) => (reg, next),
        None => {
            let parent = reg[cur];
            let id = reg.len() as u32;
            let child = ShapeView {
                fields: put(parent.fields, f, parent.fields.len() as u32),
                transitions: seq![],
            };
            (
                reg.push(child).update(
                    cur,
                    ShapeView { fields: parent.fields, transitions: put(parent.transitions, f, id) },
                ),
                id,
            )
        },
    }
}

impl Shape {
    pub fn new() -> (s: Self)
        ensures
            s.fields@.len() == 0,
            s.transitions@.len() == 0,
    {
        Shape { fields: Vec::new(), transitions: Vec::new() }
    }
}

pub struct ShapeRegistry {
    pub shapes: Vec<Shape>,
}

impl ShapeRegistry {
    pub open spec fn wf(&self) -> bool {
        registry_wf(shapes_v(self.shapes@))
    }

    /// A registry holding the empty root shape.
    pub fn new() -> (r: Self)
        ensures
            r.wf(),
            r.shapes@.len() == 1,
            r.shapes@[0].fields@.len() == 0,
            r.shapes@[0].transitions@.len() == 0,
    {
        let r = ShapeRegistry { shapes: vec![Shape::new()] };
        assert(shapes_v(r.shapes@)[0].fields =~= seq![]);
        assert(shapes_v(r.shapes@)[0].transitions =~= seq![]);
        r
    }

    pub fn get_root(&self) -> (r: ShapeId)
        ensures
            r == 0,
    {
        0
    }

    /// The shape reached by adding `field_name` to `current_id`.
    pub fn transition(&mut self, current_id: ShapeId, field_name: &str) -> (id: ShapeId)
        requires
            old(self).wf(),
            (current_id as int) < old(self).shapes@.len(),
            old(self).shapes@.len() < u32::MAX,
            old(self).shapes@[current_id as int].fields@.len() < u32::MAX,
        ensures
            final(self).wf(),
            (shapes_v(final(self).shapes@), id) == transition_spec(
                shapes_v(old(self).shapes@),
                current_id as int,
                field_name@,
            ),
            (id as int) < final(self).shapes@.len(),
            lookup(shapes_v(final(self).shapes@)[id as int].fields, field_name@) is Some,
    {
        let ghost reg = shapes_v(self.shapes@);
        let cur = current_id as usize;
        assert(reg[cur as int] == shape_v(self.shapes@[cur as int]));
        if let Some(next_id) = get(&self.shapes[cur].transitions, field_name) {
            proof {
                lemma_lookup_below(reg[cur as int].transitions, field_name@, reg.len() as int);
                lemma_lookup_some(reg[cur as int].transitions, field_name@);
            }
            return next_id;
        }
        let fields = clone_entries(&self.shapes[cur].fields);
        let mut new_shape = Shape { fields, transitions: Vec::new() };
        let new_index = new_shape.fields.len() as u32;
        insert(&mut new_shape.fields, field_name, new_index);
        let new_id = self.shapes.len() as u32;
        self.shapes.push(new_shape);
        let mut parent = self.shapes.remove(cur);
        insert(&mut parent.transitions, field_name, new_id);
        self.shapes.insert(cur, parent);
        let ghost child = shape_v(new_shape);
        let ghost par = reg[cur as int];
        let ghost reg2 = transition_spec(reg, cur as int, field_name@).0;
        proof {
            assert(shape_v(new_shape).transitions =~= seq![]);
            assert(shapes_v(self.shapes@) =~= reg2);
            lemma_put_distinct(par.fields, field_name@, new_index);
            lemma_put_distinct(par.transitions, field_name@, new_id);
            lemma_lookup_put(par.fields, field_name@, new_index, field_name@);
            assert forall|s: int| 0 <= s < reg.len() implies values_below((#[trigger] reg[s]).transitions, reg2.len() as int) by {
                assert(values_below(reg[s].transitions, reg.len() as int));
            }
            lemma_put_below(par.transitions, field_name@, new_id, reg2.len() as int);
            assert forall|s: int, i: int|
                0 <= s < reg2.len() && 0 <= i < reg2[s].transitions.len() implies lookup(
                reg2[(#[trigger] reg2[s].transitions[i]).1 as int].fields,
                reg2[s].transitions[i].0,
            ) is Some by {
                if s == cur as int {
                    let t = reg2[s].transitions[i];
                    if t.0 == field_name@ {
                        lemma_lookup_put(par.transitions, field_name@, new_id, field_name@);
                        assert(distinct_keys(reg2[s].transitions));
                        lemma_lookup_some(reg2[s].transitions, field_name@);
                        let j = choose|j: int| 0 <= j < reg2[s].transitions.len() && (#[trigger] reg2[s].transitions[j]).0 == field_name@ && reg2[s].transitions[j].1 == lookup(reg2[s].transitions, field_name@)->0;
                        if j != i {
                            if j < i {
                                assert(reg2[s].transitions[j].0 != reg2[s].transitions[i].0);
                            } else {
                                assert(reg2[s].transitions[i].0 != reg2[s].transitions[j].0);
                            }
                        }
                    } else {
                        lemma_put_entries(par.transitions, field_name@, new_id, i);
                        let j = choose|j: int| 0 <= j < par.transitions.len() && par.transitions[j] == t;
                        assert(par.transitions[j] == t);
                        assert(lookup(reg[t.1 as int].fields, t.0) is Some);
                        assert(values_below(par.transitions, reg.len() as int));
                        assert(reg2[t.1 as int].fields == reg[t.1 as int].fields);
                    }
                } else if s < reg.len() {
                    assert(reg2[s] == reg[s]);
                    assert(values_below(reg[s].transitions, reg.len() as int));
                    assert(reg[s].transitions[i].1 < reg.len());
                }
            }
        }
        new_id
    }

    /// The slot of `field_name` in shape `shape_id`.
    pub fn get_index(&self, shape_id: ShapeId, field_name: &str) -> (r: Option<u32>)
        requires
            (shape_id as int) < self.shapes@.len(),
        ensures
            r == lookup(shapes_v(self.shapes@)[shape_id as int].fields, field_name@),
    {
        get(&self.shapes[shape_id as usize].fields, field_name)
    }
}

/// Transitions are recorded: adding the same field to the same shape again
/// returns the same shape and leaves the registry as it was.
pub proof fn lemma_transition_stable(reg: Seq<ShapeView>, cur: int, f: Seq<char>)
    requires
        0 <= cur < reg.len(),
    ensures
        transition_spec(transition_spec(reg, cur, f).0, cur, f) == (
            transition_spec(reg, cur, f).0,
            transition_spec(reg, cur, f).1,
        ),
{
    if lookup(reg[cur].transitions, f) is None {
        lemma_lookup_put(reg[cur].transitions, f, reg.len() as u32, f);
    }
}

/// A new child shape has every field of its parent at the same slot, and
/// the added field at the slot after the parent's last (or, when the parent
/// already had that field, at that count too); it starts with no
/// transitions of its own, and the parent's fields stay as they were.
pub proof fn lemma_transition_fields(reg: Seq<ShapeView>, cur: int, f: Seq<char>, g: Seq<char>)
    requires
        0 <= cur < reg.len(),
        reg.len() < u32::MAX,
        lookup(reg[cur].transitions, f) is None,
    ensures
        ({
            let (reg2, id) = transition_spec(reg, cur, f);
            &&& lookup(reg2[id as int].fields, g) == if g == f {
                Some(reg[cur].fields.len() as u32)
            } else {
                lookup(reg[cur].fields, g)
            }
            &&& reg2[id as int].transitions.len() == 0
            &&& reg2[cur].fields == reg[cur].fields
        }),
{
    lemma_lookup_put(reg[cur].fields, f, reg[cur].fields.len() as u32, g);
}

} // verus!
