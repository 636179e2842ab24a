//! Per-location records of known packets, and their order: by configured
//! location, then by packet id.

use vstd::prelude::*;

use crate::config::{Config, Location};
use crate::number::Number;
use crate::responses::{ErrorKind, OutpackError};
use crate::sort::{sort_by_key, sorted_by_key, Keyed};
use crate::text::{push_str, str_eq, string_of};

verus! {

/// A packet known at a location: its id, when it became known (seconds
/// since the epoch), the hash of its metadata, and the schema version.
#[derive(Debug, Clone)]
pub struct LocationEntry {
    pub packet: String,
    pub time: Number,
    pub hash: String,
    pub schema_version: String,
}

impl Keyed for LocationEntry {
    open spec fn key_view(&self) -> Seq<char> {
        self.packet@
    }

    fn key(&self) -> (r: &str) {
        self.packet.as_str()
    }
}

/// The entries of one location, in packet id order.
pub fn read_location(entries: Vec<LocationEntry>) -> (r: Vec<LocationEntry>)
    ensures
        r@.to_multiset() == entries@.to_multiset(),
        sorted_by_key(r@),
{
    sort_by_key(entries)
}

/// The entries read from the directory named `id`, if there is one.
pub open spec fn entries_for(dirs: Seq<(String, Vec<LocationEntry>)>, id: Seq<char>) -> Seq<LocationEntry>
    decreases dirs.len(),
{
    if dirs.len() == 0 {
        Seq::empty()
    } else if dirs[0].0@ == id {
        dirs[0].1@
    } else {
        entries_for(dirs.drop_first(), id)
    }
}

/// The blocks one after another.
pub open spec fn concat_blocks<T>(b: Seq<Seq<T>>) -> Seq<T>
    decreases b.len(),
{
    if b.len() == 0 {
        Seq::empty()
    } else {
        concat_blocks(b.drop_last()) + b.last()
    }
}

/// The directory name is the id of a configured location.
pub open spec fn configured(locs: Seq<Location>, name: Seq<char>) -> bool {
    exists|j: int| 0 <= j < locs.len() && (#[trigger] locs[j]).id@ == name
}

fn is_configured(locs: &Vec<Location>, name: &str) -> (r: bool)
    ensures
        r == configured(locs@, name@),
{
    let mut j: usize = 0;
    while j < locs.len()
        invariant
            j <= locs@.len(),
            forall|k: int| 0 <= k < j ==> (#[trigger] locs@[k]).id@ != name@,
        decreases locs@.len() - j,
    {
        if str_eq(locs[j].id.as_str(), name) {
            return true;
        }
        j = j + 1;
    }
    false
}

fn take_entries(dirs: &mut Vec<(String, Vec<LocationEntry>)>, id: &str) -> (r: Vec<LocationEntry>)
    ensures
        r@ == entries_for(old(dirs)@, id@),
        final(dirs)@.len() == old(dirs)@.len(),
        forall|k: int| 0 <= k < old(dirs)@.len() ==> (#[trigger] final(dirs)@[k]).0@ == old(dirs)@[k].0@,
        forall|x: Seq<char>| x != id@ ==> entries_for(final(dirs)@, x) == entries_for(old(dirs)@, x),
        entries_for(final(dirs)@, id@) == Seq::<LocationEntry>::empty(),
{
    let ghost d0 = dirs@;
    let mut i: usize = 0;
    proof {
        assert(d0 == old(dirs)@);
        assert(d0.subrange(0, d0.len() as int) =~= d0);
    }
    while i < dirs.len()
        invariant
            i <= dirs@.len(),
            dirs@ == d0,
            d0 == old(dirs)@,
            entries_for(d0, id@) == entries_for(d0.subrange(i as int, d0.len() as int), id@),
            forall|k: int| 0 <= k < i ==> (#[trigger] d0[k]).0@ != id@,
        decreases dirs@.len() - i,
    {
        proof {
            let rest = d0.subrange(i as int, d0.len() as int);
            assert(rest[0] == d0[i as int]);
            assert(rest.drop_first() =~= d0.subrange(i + 1, d0.len() as int));
        }
        if str_eq(dirs[i].0.as_str(), id) {
            let name = string_of(&crate::text::chars_of(dirs[i].0.as_str()));
            let removed = dirs.remove(i);
            let ghost mid = dirs@;
            let entries = removed.1;
            let empty: Vec<LocationEntry> = Vec::new();
            let ghost slot = (name, empty);
            dirs.insert(i, (name, empty));
            proof {
                let rest = d0.subrange(i as int, d0.len() as int);
                assert(rest[0].0@ == id@);
                assert(entries_for(rest, id@) == rest[0].1@);
                assert(removed == d0[i as int]);
                assert(mid == d0.remove(i as int));
                assert(dirs@ == mid.insert(i as int, slot));
                assert(dirs@.len() == d0.len());
                assert forall|k: int| 0 <= k < d0.len() && k != i implies dirs@[k] == d0[k] by {
                    if k < i {
                        assert(dirs@[k] == mid[k]);
                    } else {
                        assert(dirs@[k] == mid[k - 1]);
                    }
                }
                assert(dirs@[i as int].0@ == id@);
                lemma_entries_for_after_take(d0, dirs@, i as int, id@);
                assert forall|k: int| 0 <= k < i implies (#[trigger] dirs@[k]).0@ != id@ by {
                    assert(dirs@[k] == d0[k]);
                }
                lemma_entries_for_at(dirs@, i as int, id@);
                assert forall|k: int| 0 <= k < d0.len() implies (#[trigger] dirs@[k]).0@ == d0[k].0@ by {
                    if k != i {
                        assert(dirs@[k] == d0[k]);
                    }
                }
            }
            return entries;
        }
        i = i + 1;
    }
    proof {
        assert(d0.subrange(d0.len() as int, d0.len() as int) =~= Seq::<(String, Vec<LocationEntry>)>::empty());
    }
    Vec::new()
}

proof fn lemma_entries_for_at(d: Seq<(String, Vec<LocationEntry>)>, i: int, id: Seq<char>)
    requires
        0 <= i < d.len(),
        d[i].0@ == id,
        forall|k: int| 0 <= k < i ==> (#[trigger] d[k]).0@ != id,
    ensures
        entries_for(d, id) == d[i].1@,
    decreases i,
{
    if i > 0 {
        assert(d[0].0@ != id);
        assert forall|k: int| 0 <= k < i - 1 implies (#[trigger] d.drop_first()[k]).0@ != id by {
            assert(d.drop_first()[k] == d[k + 1]);
        }
        lemma_entries_for_at(d.drop_first(), i - 1, id);
    }
}

proof fn lemma_entries_for_after_take(
    d0: Seq<(String, Vec<LocationEntry>)>,
    d1: Seq<(String, Vec<LocationEntry>)>,
    i: int,
    id: Seq<char>,
)
    requires
        0 <= i < d0.len(),
        d1.len() == d0.len(),
        d0[i].0@ == id,
        d1[i].0@ == id,
        forall|k: int| 0 <= k < d0.len() && k != i ==> d1[k] == d0[k],
        forall|k: int| 0 <= k < i ==> (#[trigger] d0[k]).0@ != id,
    ensures
        forall|x: Seq<char>| x != id ==> entries_for(d1, x) == entries_for(d0, x),
    decreases d0.len(),
{
    assert forall|x: Seq<char>| x != id implies entries_for(d1, x) == entries_for(d0, x) by {
        lemma_entries_for_same_except(d0, d1, i, id, x);
    }
}

proof fn lemma_entries_for_same_except(
    d0: Seq<(String, Vec<LocationEntry>)>,
    d1: Seq<(String, Vec<LocationEntry>)>,
    i: int,
    id: Seq<char>,
    x: Seq<char>,
)
    requires
        0 <= i < d0.len(),
        d1.len() == d0.len(),
        d0[i].0@ == id,
        d1[i].0@ == id,
        x != id,
        forall|k: int| 0 <= k < d0.len() && k != i ==> d1[k] == d0[k],
    ensures
        entries_for(d1, x) == entries_for(d0, x),
    decreases d0.len(),
{
    if d0.len() > 0 {
        if i == 0 {
            assert(d1.drop_first() =~= d0.drop_first());
        } else {
            assert(d1[0] == d0[0]);
            lemma_entries_for_same_except(d0.drop_first(), d1.drop_first(), i - 1, id, x);
        }
    }
}

/// An earlier configured location has the same id as location `j`.
pub open spec fn seen_before(locs: Seq<Location>, j: int) -> bool {
    exists|k: int| 0 <= k < j && (#[trigger] locs[k]).id@ == locs[j].id@
}

/// The entries that configured location `j` contributes: those of the
/// directory named by its id, unless an earlier location has that id.
pub open spec fn block_entries(dirs: Seq<(String, Vec<LocationEntry>)>, locs: Seq<Location>, j: int) -> Seq<LocationEntry> {
    if seen_before(locs, j) {
        Seq::empty()
    } else {
        entries_for(dirs, locs[j].id@)
    }
}

/// The entries of all locations: those of each configured location in
/// configuration order, each location's in packet id order; a location id
/// given twice takes its place at its first position. `dirs` holds
/// the entries read from each location directory, by directory name; a
/// directory that names no configured location is invalid data.
pub fn read_locations(config: &Config, dirs: Vec<(String, Vec<LocationEntry>)>) -> (r: Result<Vec<LocationEntry>, OutpackError>)
    requires
        forall|a: int, b: int| 0 <= a < b < dirs@.len() ==> (#[trigger] dirs@[a]).0@ != (#[trigger] dirs@[b]).0@,
    ensures
        r is Err <==> exists|k: int| 0 <= k < dirs@.len() && !configured(config.location@, (#[trigger] dirs@[k]).0@),
        r is Ok ==> exists|blocks: Seq<Seq<LocationEntry>>|
            blocks.len() == config.location@.len() && (forall|j: int|
                0 <= j < blocks.len() ==> sorted_by_key(#[trigger] blocks[j]) && blocks[j].to_multiset()
                    == block_entries(dirs@, config.location@, j).to_multiset()) && r->Ok_0@
                == concat_blocks(blocks),
{
    let locs = &config.location;
    let mut k: usize = 0;
    while k < dirs.len()
        invariant
            k <= dirs@.len(),
            locs@ == config.location@,
            forall|q: int| 0 <= q < k ==> configured(locs@, (#[trigger] dirs@[q]).0@),
        decreases dirs@.len() - k,
    {
        if !is_configured(locs, dirs[k].0.as_str()) {
            let mut m: Vec<char> = Vec::new();
            push_str(&mut m, "location '");
            push_str(&mut m, dirs[k].0.as_str());
            push_str(&mut m, "' is not configured");
            return Err(OutpackError::new(ErrorKind::InvalidData, string_of(&m)));
        }
        k = k + 1;
    }
    let ghost d0 = dirs@;
    let mut dirs = dirs;
    let mut out: Vec<LocationEntry> = Vec::new();
    let ghost mut blocks: Seq<Seq<LocationEntry>> = Seq::empty();
    let mut j: usize = 0;
    while j < locs.len()
        invariant
            j <= locs@.len(),
            locs@ == config.location@,
            blocks.len() == j,
            forall|q: int| 0 <= q < j ==> sorted_by_key(#[trigger] blocks[q]) && blocks[q].to_multiset()
                == block_entries(d0, locs@, q).to_multiset(),
            out@ == concat_blocks(blocks),
            forall|q: int| j <= q < locs@.len() ==> entries_for(dirs@, (#[trigger] locs@[q]).id@) == (
                if exists|k: int| 0 <= k < j && (#[trigger] locs@[k]).id@ == locs@[q].id@ {
                Seq::<LocationEntry>::empty()
            } else {
                entries_for(d0, locs@[q].id@)
            }),
        decreases locs@.len() - j,
    {
        let ghost before_dirs = dirs@;
        let entries = take_entries(&mut dirs, locs[j].id.as_str());
        proof {
            assert(entries@ == block_entries(d0, locs@, j as int));
        }
        let mut block = read_location(entries);
        let ghost bv = block@;
        proof {
            let prev = blocks;
            blocks = blocks.push(bv);
            assert(blocks.drop_last() =~= prev);
        }
        out.append(&mut block);
        proof {
            assert forall|q: int| j + 1 <= q < locs@.len() implies entries_for(dirs@, (#[trigger] locs@[q]).id@) == (
                if exists|k: int| 0 <= k < j + 1 && (#[trigger] locs@[k]).id@ == locs@[q].id@ {
                Seq::<LocationEntry>::empty()
            } else {
                entries_for(d0, locs@[q].id@)
            }) by {
                if locs@[q].id@ == locs@[j as int].id@ {
                    assert(0 <= j < j + 1 && locs@[j as int].id@ == locs@[q].id@);
                } else {
                    if exists|k: int| 0 <= k < j + 1 && (#[trigger] locs@[k]).id@ == locs@[q].id@ {
                        let k = choose|k: int| 0 <= k < j + 1 && (#[trigger] locs@[k]).id@ == locs@[q].id@;
                        assert(k < j);
                    }
                }
            }
        }
        j = j + 1;
    }
    proof {
        assert(forall|q: int| 0 <= q < d0.len() ==> configured(config.location@, (#[trigger] d0[q]).0@));
    }
    Ok(out)
}

/// The entry to write when marking a packet known at a location, or `None`
/// when the location already has one: the first entry stays, time included.
pub fn mark_packet_known(
    packet_id: &str,
    hash: &str,
    time: Number,
    schema_version: &str,
    already_known: bool,
) -> (r: Option<LocationEntry>)
    ensures
        already_known <==> r is None,
        r is Some ==> ({
            let e = r->Some_0;
            &&& e.packet@ == packet_id@
            &&& e.hash@ == hash@
            &&& e.time == time
            &&& e.schema_version@ == schema_version@
        }),
{
    if already_known {
        None
    } else {
        Some(
            LocationEntry {
                packet: String::from_str(packet_id),
                time,
                hash: String::from_str(hash),
                schema_version: String::from_str(schema_version),
            },
        )
    }
}

} // verus!
