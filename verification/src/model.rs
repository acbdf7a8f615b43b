//! Model layer with an in-memory ticket store for prototyping.
use crate::error::{Error, Result};
use vstd::prelude::*;

verus! {

/// A ticket: its id and title.
#[derive(Debug, Clone)]
pub struct Ticket {
    id: u64,
    title: String,
}

impl View for Ticket {
    type V = (u64, Seq<char>);

    closed spec fn view(&self) -> (u64, Seq<char>) {
        (self.id, self.title@)
    }
}

impl Ticket {
    /// The ticket's id.
    pub fn id(&self) -> (id: u64)
        ensures
            id == self@.0,
    {
        self.id
    }

    /// The ticket's title.
    pub fn title(&self) -> (t: &str)
        ensures
            t@ == self@.1,
    {
        self.title.as_str()
    }

    /// A copy of the ticket.
    fn duplicate(&self) -> (t: Ticket)
        ensures
            t@ == self@,
    {
        Ticket { id: self.id, title: self.title.clone() }
    }
}

/// A ticket as a client submits it: its title.
#[derive(Debug)]
pub struct ClientTicket {
    title: String,
}

impl View for ClientTicket {
    type V = Seq<char>;

    closed spec fn view(&self) -> Seq<char> {
        self.title@
    }
}

impl ClientTicket {
    /// A submission of a ticket titled `title`.
    pub fn new(title: String) -> (t: Self)
        ensures
            t@ == title@,
    {
        ClientTicket { title }
    }
}

/// The views of the slots of a ticket store.
pub open spec fn slot_views(slots: Seq<Option<Ticket>>) -> Seq<Option<(u64, Seq<char>)>> {
    slots.map_values(|s: Option<Ticket>| s.deep_view())
}

/// The tickets present in `slots`, in the order of their slots.
pub open spec fn present(slots: Seq<Option<(u64, Seq<char>)>>) -> Seq<(u64, Seq<char>)>
    decreases slots.len(),
{
    if slots.len() == 0 {
        Seq::empty()
    } else {
        match slots.last() {
            Some(t) => present(slots.drop_last()).push(t),
            None => present(slots.drop_last()),
        }
    }
}

/// Whether every ticket present in `slots` sits in the slot numbered by its id.
pub open spec fn ids_are_slots(slots: Seq<Option<(u64, Seq<char>)>>) -> bool {
    forall|i: int| 0 <= i < slots.len() ==> (#[trigger] slots[i] matches Some(t) ==> t.0 == i)
}

impl DeepView for Ticket {
    type V = (u64, Seq<char>);

    open spec fn deep_view(&self) -> (u64, Seq<char>) {
        self@
    }
}

/// Stores tickets in slots numbered by their ids; a deleted ticket leaves its slot empty.
pub struct Controller {
    ticket_store: Vec<Option<Ticket>>,
}

impl View for Controller {
    type V = Seq<Option<(u64, Seq<char>)>>;

    closed spec fn view(&self) -> Seq<Option<(u64, Seq<char>)>> {
        slot_views(self.ticket_store@)
    }
}

impl Controller {
    /// A controller over `ticket_store`.
    pub fn new(ticket_store: Vec<Option<Ticket>>) -> (r: Result<Self>)
        ensures
            r matches Ok(c) && c@ == slot_views(ticket_store@),
    {
        Ok(Self { ticket_store })
    }

    /// Stores a new ticket in a new slot, with the slot's number as its id, and returns it.
    pub fn create_ticket(&mut self, client: ClientTicket) -> (r: Result<Ticket>)
        ensures
            r matches Ok(t) && t@ == (old(self)@.len() as u64, client@),
            final(self)@ == old(self)@.push(Some((old(self)@.len() as u64, client@))),
    {
        let ClientTicket { title } = client;
        let id: u64 = self.ticket_store.len() as u64;
        let ticket = Ticket { id, title };
        self.ticket_store.push(Some(ticket.duplicate()));
        assert(self@ =~= old(self)@.push(Some((old(self)@.len() as u64, client@))));
        Ok(ticket)
    }

    /// The tickets stored, in the order of their slots.
    pub fn list_tickets(&self) -> (r: Result<Vec<Ticket>>)
        ensures
            r matches Ok(v) && v.deep_view() == present(self@),
    {
        let mut tickets: Vec<Ticket> = Vec::new();
        let mut i: usize = 0;
        while i < self.ticket_store.len()
            invariant
                i <= self.ticket_store@.len(),
                self@ == slot_views(self.ticket_store@),
                tickets.deep_view() == present(self@.take(i as int)),
            decreases self.ticket_store@.len() - i,
        {
            assert(self@.take(i + 1).drop_last() =~= self@.take(i as int));
            assert(self@.take(i + 1).last() == self.ticket_store@[i as int].deep_view());
            match &self.ticket_store[i] {
                Some(t) => {
                    let ghost before = tickets.deep_view();
                    tickets.push(t.duplicate());
                    assert(tickets.deep_view() =~= before.push(t@));
                },
                None => {},
            }
            i = i + 1;
        }
        assert(self@.take(self@.len() as int) =~= self@);
        Ok(tickets)
    }

    /// Takes the ticket with id `id` out of its slot and returns it; fails, changing nothing,
    /// where no ticket has that id.
    pub fn delete_ticket(&mut self, id: u64) -> (r: Result<Ticket>)
        requires
            id <= usize::MAX,
        ensures
            (id < old(self)@.len() && old(self)@[id as int] is Some) ==> (r matches Ok(t) && t@
                == old(self)@[id as int]->0 && final(self)@ == old(self)@.update(id as int, None)),
            !(id < old(self)@.len() && old(self)@[id as int] is Some) ==> (r matches Err(
                Error::TicketDeleteFailureIdNotFound { id: e },
            ) && e == id && final(self)@ == old(self)@),
    {
        let index = id as usize;
        if index < self.ticket_store.len() {
            let taken = match &self.ticket_store[index] {
                Some(t) => Some(t.duplicate()),
                None => None,
            };
            match taken {
                Some(t) => {
                    self.ticket_store.set(index, None);
                    assert(self@ =~= old(self)@.update(id as int, None));
                    Ok(t)
                },
                None => Err(Error::TicketDeleteFailureIdNotFound { id }),
            }
        } else {
            Err(Error::TicketDeleteFailureIdNotFound { id })
        }
    }
}

/// A ticket is listed exactly when some slot holds it.
pub proof fn lemma_present_iff_stored(slots: Seq<Option<(u64, Seq<char>)>>, t: (u64, Seq<char>))
    ensures
        present(slots).contains(t) <==> exists|i: int| 0 <= i < slots.len() && slots[i] == Some(t),
    decreases slots.len(),
{
    if slots.len() > 0 {
        let init = slots.drop_last();
        lemma_present_iff_stored(init, t);
        if present(slots).contains(t) {
            match slots.last() {
                Some(u) => {
                    if u == t {
                        assert(slots[slots.len() - 1] == Some(t));
                    } else {
                        let k = choose|k: int| 0 <= k < present(slots).len() && present(slots)[k] == t;
                        assert(present(init).contains(t)) by {
                            assert(present(init)[k] == t);
                        }
                        let i = choose|i: int| 0 <= i < init.len() && init[i] == Some(t);
                        assert(slots[i] == Some(t));
                    }
                },
                None => {
                    let i = choose|i: int| 0 <= i < init.len() && init[i] == Some(t);
                    assert(slots[i] == Some(t));
                },
            }
        }
        if exists|i: int| 0 <= i < slots.len() && slots[i] == Some(t) {
            let i = choose|i: int| 0 <= i < slots.len() && slots[i] == Some(t);
            if i == slots.len() - 1 {
                assert(present(slots).last() == t);
                assert(present(slots).contains(t)) by {
                    assert(present(slots)[present(slots).len() - 1] == t);
                }
            } else {
                assert(init[i] == Some(t));
                let k = choose|k: int| 0 <= k < present(init).len() && present(init)[k] == t;
                match slots.last() {
                    Some(u) => {
                        assert(present(slots)[k] == t);
                    },
                    None => {
                        assert(present(slots)[k] == t);
                    },
                }
            }
        }
    }
}

/// Law: creating a ticket keeps every stored ticket in the slot numbered by its id.
pub proof fn lemma_create_keeps_ids(slots: Seq<Option<(u64, Seq<char>)>>, title: Seq<char>)
    requires
        ids_are_slots(slots),
        slots.len() <= u64::MAX,
    ensures
        ids_are_slots(slots.push(Some((slots.len() as u64, title)))),
{
    let next = slots.push(Some((slots.len() as u64, title)));
    assert forall|i: int| 0 <= i < next.len() implies (#[trigger] next[i] matches Some(t) ==> t.0
        == i) by {
        if i < slots.len() {
            assert(next[i] == slots[i]);
        }
    }
}

/// Law: a created ticket is listed after the tickets listed before, and deleting its id
/// gives it back and lists the same tickets as before it was created.
pub proof fn lemma_create_then_delete(slots: Seq<Option<(u64, Seq<char>)>>, title: Seq<char>)
    requires
        slots.len() <= u64::MAX,
    ensures
        ({
            let id = slots.len() as u64;
            let next = slots.push(Some((id, title)));
            &&& present(next) == present(slots).push((id, title))
            &&& id < next.len() && next[id as int] == Some((id, title))
            &&& present(next.update(id as int, None)) == present(slots)
        }),
{
    let id = slots.len() as u64;
    let next = slots.push(Some((id, title)));
    assert(next.drop_last() =~= slots);
    let gone = next.update(id as int, None);
    assert(gone.drop_last() =~= slots);
}

/// Law: deleting a stored ticket keeps the slots numbered by the ids, removes that ticket from
/// the listing and from no other slot, and lists one ticket fewer.
pub proof fn lemma_delete_removes(slots: Seq<Option<(u64, Seq<char>)>>, id: u64)
    requires
        ids_are_slots(slots),
        id < slots.len(),
        slots[id as int] is Some,
    ensures
        ids_are_slots(slots.update(id as int, None)),
        forall|t: (u64, Seq<char>)| #[trigger]
            present(slots.update(id as int, None)).contains(t) <==> (present(slots).contains(t)
                && t.0 != id),
        present(slots.update(id as int, None)).len() + 1 == present(slots).len(),
{
    let gone = slots.update(id as int, None);
    assert forall|i: int| 0 <= i < gone.len() implies (#[trigger] gone[i] matches Some(t) ==> t.0
        == i) by {
        if i != id {
            assert(gone[i] == slots[i]);
        }
    }
    assert forall|t: (u64, Seq<char>)| #[trigger]
        present(gone).contains(t) <==> (present(slots).contains(t) && t.0 != id) by {
        lemma_present_iff_stored(gone, t);
        lemma_present_iff_stored(slots, t);
        if present(slots).contains(t) && t.0 != id {
            let i = choose|i: int| 0 <= i < slots.len() && slots[i] == Some(t);
            assert(gone[i] == Some(t));
        }
        if present(gone).contains(t) {
            let i = choose|i: int| 0 <= i < gone.len() && gone[i] == Some(t);
            assert(slots[i] == Some(t));
        }
    }
    lemma_present_len_update(slots, id as int);
}

/// Emptying a full slot lists one ticket fewer.
proof fn lemma_present_len_update(slots: Seq<Option<(u64, Seq<char>)>>, k: int)
    requires
        0 <= k < slots.len(),
        slots[k] is Some,
    ensures
        present(slots.update(k, None)).len() + 1 == present(slots).len(),
    decreases slots.len(),
{
    let gone = slots.update(k, None);
    if k == slots.len() - 1 {
        assert(gone.drop_last() =~= slots.drop_last());
    } else {
        assert(gone.drop_last() =~= slots.drop_last().update(k, None));
        lemma_present_len_update(slots.drop_last(), k);
    }
}

} // verus!
