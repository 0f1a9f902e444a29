//! Setlists: the ordered songs of an event's gig, replaced as one atomic
//! batch.

use vstd::prelude::*;
use vstd::string::StringExecFns;

use crate::auth::{authorized, check};
use crate::error::{forbids, Error};
use crate::event::event_at;
use crate::store::Store;
use crate::util::{lemma_filter_push, lemma_take_step};

verus! {

/// One song's place in one event's setlist.
#[derive(Clone, Copy, PartialEq, Eq, Structural, Debug)]
pub struct GigSong {
    pub event: i32,
    pub song: i32,
    /// Position in the setlist, starting at 1.
    pub order: i32,
}

/// A song handed in for a setlist; its position is its place in the list.
#[derive(Clone, Copy, PartialEq, Eq, Structural, Debug)]
pub struct NewGigSong {
    pub song: i32,
}

/// The setlist rows of one event, in stored order.
pub open spec fn songs_of_event(songs: Seq<GigSong>, event: i32) -> Seq<GigSong> {
    songs.filter(|s: GigSong| s.event == event)
}

/// The rows come in ascending setlist order.
pub open spec fn sorted_by_order(songs: Seq<GigSong>) -> bool {
    forall|i: int, j: int|
        0 <= i < j < songs.len() ==> (#[trigger] songs[i]).order <= (#[trigger] songs[j]).order
}

/// The rows a replacement setlist stores: each handed-in song under the
/// event, numbered from 1 in the order given.
pub open spec fn renumbered_setlist(new_songs: Seq<NewGigSong>, event: i32) -> Seq<GigSong> {
    Seq::new(
        new_songs.len(),
        |i: int| GigSong { event, song: new_songs[i].song, order: (i + 1) as i32 },
    )
}

impl GigSong {
    /// The setlist of the event, ordered by position.
    #[verifier::loop_isolation(false)]
    pub fn load_for_event(store: &Store, event_id: i32) -> (r: Vec<GigSong>)
        ensures
            sorted_by_order(r@),
            r@.to_multiset() == songs_of_event(store.gig_songs@, event_id).to_multiset(),
    {
        broadcast use vstd::seq_lib::group_to_multiset_ensures;

        let ghost pred = |s: GigSong| s.event == event_id;
        let mut rest: Vec<GigSong> = Vec::new();
        let n = store.gig_songs.len();
        for i in 0..n
            invariant
                rest@ == store.gig_songs@.take(i as int).filter(pred),
        {
            proof {
                lemma_take_step(store.gig_songs@, i as int);
                lemma_filter_push(store.gig_songs@.take(i as int), store.gig_songs@[i as int], pred);
            }
            if store.gig_songs[i].event == event_id {
                rest.push(store.gig_songs[i]);
            }
        }
        proof {
            assert(store.gig_songs@.take(n as int) =~= store.gig_songs@);
        }
        let ghost whole = rest@.to_multiset();
        let mut out: Vec<GigSong> = Vec::new();
        while rest.len() > 0
            invariant
                sorted_by_order(out@),
                out@.to_multiset().add(rest@.to_multiset()) =~= whole,
                forall|a: int, b: int|
                    0 <= a < out@.len() && 0 <= b < rest@.len() ==> (#[trigger] out@[a]).order <= (
                    #[trigger] rest@[b]).order,
            decreases rest@.len(),
        {
            let mut mi: usize = 0;
            let m = rest.len();
            for k in 1..m
                invariant
                    0 <= mi < m,
                    m == rest@.len(),
                    forall|b: int|
                        0 <= b < k ==> rest@[mi as int].order <= (#[trigger] rest@[b]).order,
            {
                if rest[k].order < rest[mi].order {
                    mi = k;
                }
            }
            let x = rest.remove(mi);
            proof {
                assert(out@.push(x).to_multiset().add(rest@.to_multiset()) =~= whole);
            }
            out.push(x);
        }
        out
    }

    /// Replace the event's setlist wholesale: the handed-in songs take the
    /// positions 1, 2, ... in the order given, and every previous row of the
    /// event goes away — one atomic batch. Rows of other events are
    /// untouched.
    #[verifier::loop_isolation(false)]
    pub fn update_for_event(store: &mut Store, event_id: i32, new_songs: &Vec<NewGigSong>)
        requires
            old(store).wf(),
            new_songs@.len() < 0x7fff_ffff,
        ensures
            final(store).wf(),
            final(store).only_songs_changed(*old(store)),
            final(store).gig_songs@ == old(store).gig_songs@.filter(
                |s: GigSong| s.event != event_id,
            ) + renumbered_setlist(new_songs@, event_id),
    {
        let ghost keep = |s: GigSong| s.event != event_id;
        let mut rows: Vec<GigSong> = Vec::new();
        let n = store.gig_songs.len();
        for i in 0..n
            invariant
                *store == *old(store),
                rows@ == store.gig_songs@.take(i as int).filter(keep),
        {
            proof {
                lemma_take_step(store.gig_songs@, i as int);
                lemma_filter_push(store.gig_songs@.take(i as int), store.gig_songs@[i as int], keep);
            }
            if !(store.gig_songs[i].event == event_id) {
                rows.push(store.gig_songs[i]);
            }
        }
        proof {
            assert(store.gig_songs@.take(n as int) =~= store.gig_songs@);
        }
        let ghost kept = rows@;
        let m = new_songs.len();
        let mut order: i32 = 0;
        for k in 0..m
            invariant
                *store == *old(store),
                m == new_songs@.len(),
                order == k,
                rows@ == kept + renumbered_setlist(new_songs@.take(k as int), event_id),
        {
            proof {
                assert(kept + renumbered_setlist(new_songs@.take(k as int), event_id).push(
                    (GigSong { event: event_id, song: new_songs@[k as int].song, order: (k + 1) as i32 }),
                ) =~= kept + renumbered_setlist(new_songs@.take(k as int + 1), event_id));
            }
            order = order + 1;
            rows.push(GigSong { event: event_id, song: new_songs[k].song, order });
        }
        proof {
            assert(new_songs@.take(m as int) =~= new_songs@);
        }
        store.gig_songs = rows;
    }
}

impl Store {
    /// The setlist of an event, ordered by position.
    pub fn get_setlist(&self, event_id: i32) -> (r: Vec<GigSong>)
        ensures
            sorted_by_order(r@),
            r@.to_multiset() == songs_of_event(self.gig_songs@, event_id).to_multiset(),
    {
        GigSong::load_for_event(self, event_id)
    }

    /// Replace the setlist of an event. Requires `edit-carpool` for the
    /// event's type. On failure the store is untouched.
    pub fn edit_setlist(
        &mut self,
        event_id: i32,
        new_songs: &Vec<NewGigSong>,
        principal: &String,
    ) -> (r: Result<(), Error>)
        requires
            old(self).wf(),
            new_songs@.len() < 0x7fff_ffff,
        ensures
            final(self).wf(),
            final(self).only_songs_changed(*old(self)),
            r is Ok <==> (crate::event::has_event(old(self).events@, event_id) && authorized(
                old(self).catalog,
                principal@,
                "edit-carpool"@,
                Some(event_at(old(self).events@, event_id).type_@),
            )),
            r is Ok ==> final(self).gig_songs@ == old(self).gig_songs@.filter(
                |s: GigSong| s.event != event_id,
            ) + renumbered_setlist(new_songs@, event_id),
            r is Err ==> *final(self) == *old(self),
            r matches Err(e) ==> if !crate::event::has_event(old(self).events@, event_id) {
                e is NotFound
            } else {
                forbids(e, "edit-carpool"@)
            },
    {
        let k = match self.find_event(event_id) {
            Some(k) => k,
            None => {
                return Err(Error::NotFound(String::from_str("No event with that id.")));
            },
        };
        let perm = String::from_str("edit-carpool");
        if !check(&self.catalog, principal, &perm, Some(&self.events[k].type_)) {
            return Err(Error::Forbidden(perm));
        }
        GigSong::update_for_event(self, event_id, new_songs);
        Ok(())
    }
}

} // verus!
