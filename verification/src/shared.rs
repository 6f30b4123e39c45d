//! Sharing a structure between the events of a group.
//!
//! What a structure costs is its description -- the
//! `side_type_struct`, its field array, the names of those fields and
//! every type they reach -- and that is the same bytes wherever the
//! structure is used. So a group lays a structure out once and every use
//! of it holds the distance to that one copy, which is what C does with
//! `side_static_define_struct()`.
use vstd::prelude::*;

use crate::model::Field;
use crate::shape::{fields_eq, fields_same};

verus! {

broadcast use vstd::std_specs::vec::group_vec_axioms, vstd::seq::group_seq_axioms;

/// How many distinct structures one group may lay out.
pub const MAX_SHARED_TYPES: usize = 64;

/// A structure a group has laid out: its shape, and where it begins.
pub struct Slot {
    pub fields: Seq<Field>,
    pub size: u32,
    pub offset: int,
}

/// Whether a slot holds a structure of this shape.
pub open spec fn slot_matches(slot: Slot, fields: Seq<Field>, size: u32) -> bool {
    slot.size == size && fields_same(slot.fields, fields)
}

/// The first slot of `table` which holds a structure of this shape.
pub open spec fn find_slot(table: Seq<Slot>, fields: Seq<Field>, size: u32) -> Option<int>
    decreases table.len(),
{
    if table.len() == 0 {
        None
    } else {
        match find_slot(table.drop_last(), fields, size) {
            Some(i) => Some(i),
            None => if slot_matches(table.last(), fields, size) {
                Some(table.len() - 1)
            } else {
                None
            },
        }
    }
}

/// Where a structure of this shape was already laid out, if it was.
pub open spec fn find_shared(table: Seq<Slot>, fields: Seq<Field>, size: u32) -> Option<int> {
    match find_slot(table, fields, size) {
        Some(i) => Some(table[i].offset),
        None => None,
    }
}

/// What `find_slot` finds is a slot of the table, and the first which
/// matches; nothing is found only where nothing matches.
pub proof fn lemma_find_slot(table: Seq<Slot>, fields: Seq<Field>, size: u32)
    ensures
        find_slot(table, fields, size) matches Some(i) ==> {
            &&& 0 <= i < table.len()
            &&& slot_matches(table[i], fields, size)
            &&& forall|j: int| 0 <= j < i ==> !slot_matches(#[trigger] table[j], fields, size)
        },
        find_slot(table, fields, size) is None ==> forall|j: int|
            0 <= j < table.len() ==> !slot_matches(#[trigger] table[j], fields, size),
    decreases table.len(),
{
    if table.len() > 0 {
        lemma_find_slot(table.drop_last(), fields, size);
        assert forall|j: int| 0 <= j < table.len() - 1 implies table.drop_last()[j] == table[j] by {}
    }
}

/// One entry of the table a group keeps while it lays itself out.
pub struct SharedEntry<'a> {
    pub fields: &'a Vec<Field>,
    pub size: u32,
    pub offset: usize,
}

/// The structures a group has laid out so far, in order.
pub struct Shared<'a> {
    pub entries: Vec<SharedEntry<'a>>,
}

impl<'a> Shared<'a> {
    pub open spec fn view(&self) -> Seq<Slot> {
        Seq::new(
            self.entries@.len(),
            |i: int|
                Slot {
                    fields: self.entries@[i].fields@,
                    size: self.entries@[i].size,
                    offset: self.entries@[i].offset as int,
                },
        )
    }

    pub fn new() -> (r: Self)
        ensures
            r.view() == Seq::<Slot>::empty(),
    {
        let r = Shared { entries: Vec::new() };
        assert(r.view() =~= Seq::<Slot>::empty());
        r
    }
}

/// Where a structure of this shape was already laid out, if it was.
pub fn shared_find<'a>(shared: &Shared<'a>, fields: &Vec<Field>, size: u32) -> (r: Option<usize>)
    ensures
        r matches Some(o) ==> find_shared(shared.view(), fields@, size) == Some(o as int),
        r is None ==> find_shared(shared.view(), fields@, size) is None,
{
    let ghost table = shared.view();
    proof {
        lemma_find_slot(table, fields@, size);
    }
    let mut i: usize = 0;
    while i < shared.entries.len()
        invariant
            table == shared.view(),
            i <= table.len(),
            forall|j: int| 0 <= j < i ==> !slot_matches(#[trigger] table[j], fields@, size),
        decreases table.len() - i,
    {
        let entry = &shared.entries[i];
        if entry.size == size && fields_eq(entry.fields, fields) {
            proof {
                lemma_find_slot(table, fields@, size);
                assert(slot_matches(table[i as int], fields@, size));
                if find_slot(table, fields@, size) is None {
                    assert(!slot_matches(table[i as int], fields@, size));
                }
                let k = find_slot(table, fields@, size).unwrap();
                if k < i {
                    assert(!slot_matches(table[k], fields@, size));
                }
                if k > i {
                    assert(!slot_matches(table[i as int], fields@, size));
                }
            }
            return Some(entry.offset);
        }
        assert(!slot_matches(table[i as int], fields@, size));
        i += 1;
    }
    proof {
        lemma_find_slot(table, fields@, size);
        if find_slot(table, fields@, size) is Some {
            let k = find_slot(table, fields@, size).unwrap();
            assert(!slot_matches(table[k], fields@, size));
        }
    }
    None
}

/// Say where a structure of this shape is being laid out.
///
/// Recorded before its fields are, so that everything it reaches is laid
/// out after it.
pub fn shared_insert<'a>(shared: &mut Shared<'a>, fields: &'a Vec<Field>, size: u32, offset: usize)
    requires
        old(shared).view().len() < MAX_SHARED_TYPES,
    ensures
        final(shared).view() == old(shared).view().push(Slot { fields: fields@, size, offset: offset as int }),
{
    shared.entries.push(SharedEntry { fields, size, offset });
    assert(shared.view() =~= old(shared).view().push(
        Slot { fields: fields@, size, offset: offset as int },
    ));
}

} // verus!
