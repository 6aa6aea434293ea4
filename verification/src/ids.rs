//! The ids of the boxes on the surface.

use vstd::prelude::*;

verus! {

/// The id of a box on the surface: the container of all panes, or a pane.
#[derive(Clone, Copy, Debug, PartialEq, Eq, Structural)]
pub enum Id {
    Container,
    Pane0,
    Pane1,
    Pane2,
    Pane3,
    Pane4,
    Pane5,
    Pane6,
    Pane7,
    Pane8,
    Pane9,
    Pane10,
    Pane11,
    Pane12,
    Pane13,
    Pane14,
    Pane15,
}

/// The id of a box, as a number.
#[derive(Clone, Copy, Debug, PartialEq, Eq, Structural)]
pub struct FlexBoxId {
    pub inner: u8,
}

/// The number of an id.
pub open spec fn id_number(id: Id) -> u8 {
    match id {
        Id::Container => 1,
        Id::Pane0 => 2,
        Id::Pane1 => 3,
        Id::Pane2 => 4,
        Id::Pane3 => 5,
        Id::Pane4 => 6,
        Id::Pane5 => 7,
        Id::Pane6 => 8,
        Id::Pane7 => 9,
        Id::Pane8 => 10,
        Id::Pane9 => 11,
        Id::Pane10 => 12,
        Id::Pane11 => 13,
        Id::Pane12 => 14,
        Id::Pane13 => 15,
        Id::Pane14 => 16,
        Id::Pane15 => 17,
    }
}

/// The slot of the pane with an id.
pub open spec fn slot_of(id: FlexBoxId) -> Option<int> {
    if 2 <= id.inner <= 17 {
        Some(id.inner - 2)
    } else {
        None
    }
}

impl Id {
    /// The id of the pane in a slot. There are sixteen panes; further slots share the last.
    pub fn pane(slot: usize) -> (r: Self)
        ensures
            id_number(r) == 2 + if slot < 15 {
                slot as int
            } else {
                15
            },
    {
        match slot {
            0 => Id::Pane0,
            1 => Id::Pane1,
            2 => Id::Pane2,
            3 => Id::Pane3,
            4 => Id::Pane4,
            5 => Id::Pane5,
            6 => Id::Pane6,
            7 => Id::Pane7,
            8 => Id::Pane8,
            9 => Id::Pane9,
            10 => Id::Pane10,
            11 => Id::Pane11,
            12 => Id::Pane12,
            13 => Id::Pane13,
            14 => Id::Pane14,
            _ => Id::Pane15,
        }
    }
}

impl From<Id> for u8 {
    fn from(id: Id) -> (r: u8) {
        match id {
            Id::Container => 1,
            Id::Pane0 => 2,
            Id::Pane1 => 3,
            Id::Pane2 => 4,
            Id::Pane3 => 5,
            Id::Pane4 => 6,
            Id::Pane5 => 7,
            Id::Pane6 => 8,
            Id::Pane7 => 9,
            Id::Pane8 => 10,
            Id::Pane9 => 11,
            Id::Pane10 => 12,
            Id::Pane11 => 13,
            Id::Pane12 => 14,
            Id::Pane13 => 15,
            Id::Pane14 => 16,
            Id::Pane15 => 17,
        }
    }
}

impl vstd::std_specs::convert::FromSpecImpl<Id> for u8 {
    open spec fn obeys_from_spec() -> bool {
        true
    }

    open spec fn from_spec(id: Id) -> u8 {
        id_number(id)
    }
}

impl From<Id> for FlexBoxId {
    fn from(id: Id) -> (r: FlexBoxId) {
        FlexBoxId { inner: u8::from(id) }
    }
}

impl vstd::std_specs::convert::FromSpecImpl<Id> for FlexBoxId {
    open spec fn obeys_from_spec() -> bool {
        true
    }

    open spec fn from_spec(id: Id) -> FlexBoxId {
        FlexBoxId { inner: id_number(id) }
    }
}

/// The slot of the pane with an id.
pub fn pane_slot(id: FlexBoxId) -> (r: Option<usize>)
    ensures
        match r {
            Some(slot) => slot_of(id) == Some(slot as int) && slot < 16,
            None => slot_of(id) is None,
        },
{
    if 2 <= id.inner && id.inner <= 17 {
        Some(id.inner as usize - 2)
    } else {
        None
    }
}

/// The id of a slot leads back to the slot.
pub proof fn law_id_leads_back_to_slot(id: Id, slot: usize)
    requires
        slot < 16,
        id_number(id) == 2 + slot,
    ensures
        slot_of(FlexBoxId { inner: id_number(id) }) == Some(slot as int),
{
}

} // verus!
