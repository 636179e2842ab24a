//! Packet metadata: ids, their digest, which ids a repository lacks, and
//! packets known since a time.

use vstd::prelude::*;
use vstd::multiset::Multiset;

use crate::hash::{hash_data, hash_string, hash_value_of, parse_algorithm, alg_named, HashAlgorithm};
use crate::ids::{get_valid_id, invalid_id_text, is_packet_id, is_packet_str, trim};
use crate::index::{Index, Packet};
use crate::location::LocationEntry;
use crate::number::{num_cmp, Number};
use crate::responses::{ErrorKind, OutpackError};
use crate::sort::{lemma_lex_le_antisymmetric, lex_le, sort_by_key, sorted_by_key, Keyed};
use crate::store::texts;
use crate::text::{chars_of, push_str, str_eq, string_of};

verus! {

impl Keyed for Packet {
    open spec fn key_view(&self) -> Seq<char> {
        self.id@
    }

    fn key(&self) -> (r: &str) {
        self.id.as_str()
    }
}

/// The texts are in character order.
pub open spec fn sorted_texts(s: Seq<Seq<char>>) -> bool {
    forall|i: int, j: int| 0 <= i < j < s.len() ==> lex_le(#[trigger] s[i], #[trigger] s[j])
}

/// The texts one after another.
pub open spec fn concat_all(ss: Seq<Seq<char>>) -> Seq<char>
    decreases ss.len(),
{
    if ss.len() == 0 {
        Seq::empty()
    } else {
        concat_all(ss.drop_last()) + ss.last()
    }
}

proof fn lemma_min_first(s: Seq<Seq<char>>, x: Seq<char>)
    requires
        sorted_texts(s),
        s.to_multiset().contains(x),
    ensures
        s.len() > 0,
        lex_le(s[0], x),
{
    broadcast use vstd::seq_lib::group_to_multiset_ensures;

    assert(s.contains(x));
    let k = choose|k: int| 0 <= k < s.len() && s[k] == x;
    if k > 0 {
        assert(lex_le(s[0], s[k]));
    } else {
        crate::sort::lemma_lex_le_total(s[0], s[0]);
    }
}

/// A multiset of texts has one sorted arrangement: two sorted sequences with
/// the same members are the same sequence.
pub proof fn lemma_sorted_unique(s1: Seq<Seq<char>>, s2: Seq<Seq<char>>)
    requires
        sorted_texts(s1),
        sorted_texts(s2),
        s1.to_multiset() == s2.to_multiset(),
    ensures
        s1 == s2,
    decreases s1.len(),
{
    broadcast use vstd::seq_lib::group_to_multiset_ensures, vstd::multiset::group_multiset_axioms;

    if s1.len() == 0 {
        assert(s2.to_multiset().len() == 0);
        assert(s2.len() == 0);
        assert(s1 =~= s2);
    } else {
        assert(s1.to_multiset().contains(s1[0]));
        lemma_min_first(s2, s1[0]);
        assert(s2.to_multiset().contains(s2[0]));
        lemma_min_first(s1, s2[0]);
        lemma_lex_le_antisymmetric(s1[0], s2[0]);
        let t1 = s1.remove(0);
        let t2 = s2.remove(0);
        assert(t1 =~= s1.drop_first());
        assert(t2 =~= s2.drop_first());
        assert(t1.to_multiset() == s1.to_multiset().remove(s1[0]));
        assert(t2.to_multiset() == s2.to_multiset().remove(s2[0]));
        assert(sorted_texts(t1));
        assert(sorted_texts(t2));
        lemma_sorted_unique(t1, t2);
        assert(s1 =~= seq![s1[0]] + t1);
        assert(s2 =~= seq![s2[0]] + t2);
    }
}

/// Rearranging strings rearranges their texts the same way.
pub proof fn lemma_texts_multiset(a: Seq<String>, b: Seq<String>)
    requires
        a.to_multiset() == b.to_multiset(),
    ensures
        texts(a).to_multiset() == texts(b).to_multiset(),
    decreases a.len(),
{
    broadcast use vstd::seq_lib::group_to_multiset_ensures, vstd::multiset::group_multiset_axioms;

    if a.len() == 0 {
        assert(b.to_multiset().len() == 0);
        assert(b.len() == 0);
        assert(texts(a) =~= texts(b));
    } else {
        let x = a.last();
        assert(a.to_multiset().contains(x));
        assert(b.contains(x));
        let i = choose|i: int| 0 <= i < b.len() && b[i] == x;
        let a1 = a.drop_last();
        let b1 = b.remove(i);
        assert(a =~= a1.push(x));
        assert(a1.to_multiset() =~= a.to_multiset().remove(x));
        assert(b1.to_multiset() == b.to_multiset().remove(x));
        lemma_texts_multiset(a1, b1);
        assert(texts(a) =~= texts(a1).push(x@));
        assert(texts(b1) =~= texts(b).remove(i));
        assert(texts(b1).to_multiset() == texts(b).to_multiset().remove(texts(b)[i]));
        assert(texts(b).to_multiset().contains(x@));
        assert(texts(b).to_multiset() =~= texts(b1).to_multiset().insert(x@));
    }
}

/// The ids in character order, joined with nothing between them.
pub fn get_sorted_id_string(ids: Vec<String>) -> (r: String)
    ensures
        exists|s: Seq<Seq<char>>|
            sorted_texts(s) && s.to_multiset() == texts(ids@).to_multiset() && r@ == concat_all(s),
{
    let ghost orig = ids@;
    let sorted = sort_by_key(ids);
    proof {
        lemma_texts_multiset(sorted@, orig);
    }
    let mut out: Vec<char> = Vec::new();
    let mut i: usize = 0;
    while i < sorted.len()
        invariant
            i <= sorted@.len(),
            out@ == concat_all(texts(sorted@.subrange(0, i as int))),
        decreases sorted@.len() - i,
    {
        proof {
            assert(texts(sorted@.subrange(0, i as int + 1)).drop_last() =~= texts(sorted@.subrange(0, i as int)));
        }
        push_str(&mut out, sorted[i].as_str());
        i = i + 1;
    }
    proof {
        assert(sorted@.subrange(0, sorted@.len() as int) =~= sorted@);
        assert forall|i: int, j: int| 0 <= i < j < texts(sorted@).len() implies lex_le(
            #[trigger] texts(sorted@)[i],
            #[trigger] texts(sorted@)[j],
        ) by {
            assert(lex_le(sorted@[i].key_view(), sorted@[j].key_view()));
        }
    }
    string_of(&out)
}

/// The text of the digest under `a` of the ids joined in order `s`.
pub open spec fn ids_digest_text(a: HashAlgorithm, s: Seq<Seq<char>>) -> Seq<char> {
    hash_string(a, hash_value_of(vstd::utf8::encode_utf8(concat_all(s)), a))
}

/// The algorithm a digest request names, or the configured one.
pub open spec fn digest_alg(alg_name: Option<Seq<char>>, configured: HashAlgorithm) -> Option<HashAlgorithm> {
    match alg_name {
        None => Some(configured),
        Some(n) => alg_named(n),
    }
}

/// The digest of a repository's packet ids: the ids sorted, joined with
/// nothing between them, and hashed with the named algorithm (or the
/// configured one), as `algorithm:hex`.
pub fn get_ids_digest(alg_name: Option<String>, configured: HashAlgorithm, ids: Vec<String>) -> (r: Result<String, OutpackError>)
    ensures
        match digest_alg(crate::config::opt_text(alg_name), configured) {
            None => r is Err && r->Err_0.kind == Some(ErrorKind::InvalidData) && r->Err_0.detail@
                == "algorithm "@ + alg_name->Some_0@ + " not found"@,
            Some(a) => r is Ok && exists|s: Seq<Seq<char>>|
                sorted_texts(s) && s.to_multiset() == texts(ids@).to_multiset() && r->Ok_0@
                    == ids_digest_text(a, s),
        },
{
    let algorithm = match &alg_name {
        None => configured,
        Some(name) => match parse_algorithm(name.as_str()) {
            Ok(a) => a,
            Err(_) => {
                let mut m: Vec<char> = Vec::new();
                push_str(&mut m, "algorithm ");
                push_str(&mut m, name.as_str());
                push_str(&mut m, " not found");
                return Err(OutpackError::new(ErrorKind::InvalidData, string_of(&m)));
            },
        },
    };
    let id_string = get_sorted_id_string(ids);
    let h = hash_data(id_string.as_str().as_bytes(), algorithm);
    Ok(h.to_string())
}

/// The digest depends on the ids alone, not on the order they were listed
/// in: for two lists with the same ids, any sorted arrangements of each give
/// the same digest, the hash of the sorted ids joined.
pub proof fn lemma_ids_digest_order_free(
    a: HashAlgorithm,
    l1: Seq<Seq<char>>,
    l2: Seq<Seq<char>>,
    s1: Seq<Seq<char>>,
    s2: Seq<Seq<char>>,
)
    requires
        l1.to_multiset() == l2.to_multiset(),
        sorted_texts(s1),
        s1.to_multiset() == l1.to_multiset(),
        sorted_texts(s2),
        s2.to_multiset() == l2.to_multiset(),
    ensures
        s1 == s2,
        ids_digest_text(a, s1) == ids_digest_text(a, s2),
{
    lemma_sorted_unique(s1, s2);
}

/// The ids asked for that are not known, each once, in the order asked.
pub open spec fn missing_ids_spec(w: Seq<Seq<char>>, known: Seq<Seq<char>>) -> Seq<Seq<char>>
    decreases w.len(),
{
    if w.len() == 0 {
        Seq::empty()
    } else {
        let prev = missing_ids_spec(w.drop_last(), known);
        if !known.contains(w.last()) && !prev.contains(w.last()) {
            prev.push(w.last())
        } else {
            prev
        }
    }
}

/// The ids with white space trimmed.
pub open spec fn trimmed(w: Seq<String>) -> Seq<Seq<char>> {
    w.map_values(|s: String| trim(s@))
}

fn contains_text(v: &Vec<String>, s: &str) -> (r: bool)
    ensures
        r == texts(v@).contains(s@),
{
    let mut i: usize = 0;
    while i < v.len()
        invariant
            i <= v@.len(),
            forall|j: int| 0 <= j < i ==> v@[j]@ != s@,
        decreases v@.len() - i,
    {
        if str_eq(v[i].as_str(), s) {
            assert(texts(v@)[i as int] == s@);
            return true;
        }
        i = i + 1;
    }
    proof {
        if texts(v@).contains(s@) {
            let j = choose|j: int| 0 <= j < texts(v@).len() && texts(v@)[j] == s@;
            assert(v@[j]@ == s@);
        }
    }
    false
}

/// The ids of `wanted` (white space trimmed) that are not among `known`,
/// each once, in the order asked; fails on the first that is not a packet
/// id.
pub fn get_missing_ids(known: &Vec<String>, wanted: &Vec<String>) -> (r: Result<Vec<String>, OutpackError>)
    ensures
        match r {
            Ok(v) => (forall|i: int| 0 <= i < wanted@.len() ==> is_packet_id(trim(#[trigger] wanted@[i]@)))
                && texts(v@) == missing_ids_spec(trimmed(wanted@), texts(known@)),
            Err(e) => exists|i: int|
                0 <= i < wanted@.len() && !is_packet_id(trim(#[trigger] wanted@[i]@)) && (forall|j: int|
                    0 <= j < i ==> is_packet_id(trim(#[trigger] wanted@[j]@))) && e.kind == Some(
                    ErrorKind::InvalidInput,
                ) && e.detail@ == invalid_id_text(wanted@[i]@),
        },
{
    let mut valid: Vec<String> = Vec::new();
    let mut i: usize = 0;
    while i < wanted.len()
        invariant
            i <= wanted@.len(),
            valid@.len() == i,
            forall|j: int| 0 <= j < i ==> is_packet_id(trim(#[trigger] wanted@[j]@)),
            forall|j: int| 0 <= j < i ==> (#[trigger] valid@[j])@ == trim(wanted@[j]@),
        decreases wanted@.len() - i,
    {
        match get_valid_id(&wanted[i]) {
            Ok(s) => {
                valid.push(s);
            },
            Err(e) => {
                return Err(e);
            },
        }
        i = i + 1;
    }
    proof {
        assert(texts(valid@) =~= trimmed(wanted@));
    }
    let mut out: Vec<String> = Vec::new();
    let mut k: usize = 0;
    while k < valid.len()
        invariant
            k <= valid@.len(),
            texts(out@) == missing_ids_spec(texts(valid@).subrange(0, k as int), texts(known@)),
        decreases valid@.len() - k,
    {
        let ghost prev = texts(out@);
        let ghost w = texts(valid@).subrange(0, k as int + 1);
        proof {
            assert(w.drop_last() =~= texts(valid@).subrange(0, k as int));
            assert(w.last() == valid@[k as int]@);
        }
        if !contains_text(known, valid[k].as_str()) && !contains_text(&out, valid[k].as_str()) {
            let cs = chars_of(valid[k].as_str());
            out.push(string_of(&cs));
            proof {
                assert(texts(out@) =~= prev.push(valid@[k as int]@));
            }
        }
        k = k + 1;
    }
    proof {
        assert(texts(valid@).subrange(0, valid@.len() as int) =~= texts(valid@));
    }
    Ok(out)
}

/// Some location learnt of packet `id` after time `t`.
pub open spec fn known_since(entries: Seq<LocationEntry>, id: Seq<char>, t: Number) -> bool {
    exists|k: int| 0 <= k < entries.len() && (#[trigger] entries[k]).packet@ == id && num_cmp(entries[k].time, t) > 0
}

/// Which packets a date filter keeps: all without a time, else those known
/// somewhere after it.
pub open spec fn keeps(entries: Seq<LocationEntry>, from: Option<Number>) -> spec_fn(Packet) -> bool {
    |p: Packet| match from {
        None => true,
        Some(t) => known_since(entries, p.id@, t),
    }
}

fn is_known_since(entries: &Vec<LocationEntry>, id: &str, t: &Number) -> (r: bool)
    ensures
        r == known_since(entries@, id@, *t),
{
    let mut k: usize = 0;
    while k < entries.len()
        invariant
            k <= entries@.len(),
            forall|q: int| 0 <= q < k ==> !((#[trigger] entries@[q]).packet@ == id@ && num_cmp(entries@[q].time, *t) > 0),
        decreases entries@.len() - k,
    {
        if str_eq(entries[k].packet.as_str(), id) && entries[k].time.compare(t) > 0 {
            return true;
        }
        k = k + 1;
    }
    false
}

/// The packets, in id order, that were known somewhere after `from` (all
/// of them when `from` is `None`).
pub fn get_metadata_from_date(packets: Vec<Packet>, entries: &Vec<LocationEntry>, from: Option<Number>) -> (r: Vec<Packet>)
    ensures
        sorted_by_key(r@),
        r@.to_multiset() == packets@.filter(keeps(entries@, from)).to_multiset(),
{
    broadcast use vstd::seq_lib::group_to_multiset_ensures, vstd::multiset::group_multiset_axioms;

    let ghost orig = packets@;
    let ghost pred = keeps(entries@, from);
    let mut rest = packets;
    let mut kept: Vec<Packet> = Vec::new();
    proof {
        assert(kept@.to_multiset() =~= Multiset::empty());
        assert(kept@.to_multiset().add(rest@.filter(pred).to_multiset()) =~= orig.filter(pred).to_multiset());
    }
    while rest.len() > 0
        invariant
            pred == keeps(entries@, from),
            kept@.to_multiset().add(rest@.filter(pred).to_multiset()) == orig.filter(pred).to_multiset(),
        decreases rest@.len(),
    {
        let ghost before = rest@;
        let p = rest.pop().unwrap();
        proof {
            assert(before.drop_last() =~= rest@);
            assert(before.last() == p);
        }
        let keep = match &from {
            None => true,
            Some(t) => is_known_since(entries, p.id.as_str(), t),
        };
        proof {
            assert(keep == pred(p));
        }
        if keep {
            let ghost kept_before = kept@;
            kept.push(p);
            proof {
                reveal(Seq::filter);
                assert(kept@ == kept_before.push(p));
                vstd::seq_lib::to_multiset_build(kept_before, p);
                vstd::seq_lib::to_multiset_build(rest@.filter(pred), p);
                assert(kept@.to_multiset() == kept_before.to_multiset().insert(p));
                assert(before.len() > 0);
                assert(pred(before.last()));
                assert(before.filter(pred) == before.drop_last().filter(pred).push(before.last()));
                assert(before.filter(pred) == rest@.filter(pred).push(p));
                assert(before.filter(pred).to_multiset() == rest@.filter(pred).to_multiset().insert(p));
                assert(kept@.to_multiset().add(rest@.filter(pred).to_multiset()) =~= orig.filter(pred).to_multiset());
            }
        } else {
            proof {
                reveal(Seq::filter);
                assert(before.len() > 0);
                assert(!pred(before.last()));
                assert(before.filter(pred) == before.drop_last().filter(pred));
                assert(before.filter(pred) == rest@.filter(pred));
            }
        }
    }
    proof {
        reveal(Seq::filter);
        assert(rest@.filter(pred) =~= Seq::<Packet>::empty());
        assert(kept@.to_multiset() =~= orig.filter(pred).to_multiset());
    }
    sort_by_key(kept)
}

/// Packets whose id is a packet id.
pub open spec fn has_packet_id() -> spec_fn(Packet) -> bool {
    |p: Packet| is_packet_id(p.id@)
}

/// The index of a repository's packets: those whose id is a packet id, in
/// id order.
pub fn get_packet_index(packets: Vec<Packet>) -> (r: Index)
    ensures
        sorted_by_key(r.packets@),
        r.packets@.to_multiset() == packets@.filter(has_packet_id()).to_multiset(),
        forall|i: int| 0 <= i < r@.len() ==> is_packet_id(#[trigger] r@[i].id),
        (forall|i: int| 0 <= i < packets@.len() ==> (#[trigger] packets@[i]).wf()) ==> r.wf(),
{
    broadcast use vstd::seq_lib::group_to_multiset_ensures, vstd::multiset::group_multiset_axioms;

    let ghost orig = packets@;
    let ghost pred = has_packet_id();
    let mut rest = packets;
    let mut kept: Vec<Packet> = Vec::new();
    proof {
        assert(kept@.to_multiset() =~= Multiset::empty());
        assert(kept@.to_multiset().add(rest@.filter(pred).to_multiset()) =~= orig.filter(pred).to_multiset());
    }
    while rest.len() > 0
        invariant
            pred == has_packet_id(),
            kept@.to_multiset().add(rest@.filter(pred).to_multiset()) == orig.filter(pred).to_multiset(),
            forall|i: int| 0 <= i < kept@.len() ==> is_packet_id((#[trigger] kept@[i]).id@),
            (forall|i: int| 0 <= i < orig.len() ==> (#[trigger] orig[i]).wf()) ==> (forall|i: int|
                0 <= i < kept@.len() ==> (#[trigger] kept@[i]).wf()) && (forall|i: int|
                0 <= i < rest@.len() ==> (#[trigger] rest@[i]).wf()),
        decreases rest@.len(),
    {
        let ghost before = rest@;
        let p = rest.pop().unwrap();
        proof {
            assert(before.drop_last() =~= rest@);
            assert(before.last() == p);
        }
        if is_packet_str(p.id.as_str()) {
            let ghost kept_before = kept@;
            kept.push(p);
            proof {
                reveal(Seq::filter);
                assert(kept@ == kept_before.push(p));
                vstd::seq_lib::to_multiset_build(kept_before, p);
                vstd::seq_lib::to_multiset_build(rest@.filter(pred), p);
                assert(kept@.to_multiset() == kept_before.to_multiset().insert(p));
                assert(before.len() > 0);
                assert(pred(before.last()));
                assert(before.filter(pred) == before.drop_last().filter(pred).push(before.last()));
                assert(before.filter(pred) == rest@.filter(pred).push(p));
                assert(before.filter(pred).to_multiset() == rest@.filter(pred).to_multiset().insert(p));
                assert(kept@.to_multiset().add(rest@.filter(pred).to_multiset()) =~= orig.filter(pred).to_multiset());
            }
        } else {
            proof {
                reveal(Seq::filter);
                assert(before.len() > 0);
                assert(!pred(before.last()));
                assert(before.filter(pred) == before.drop_last().filter(pred));
                assert(before.filter(pred) == rest@.filter(pred));
            }
        }
    }
    proof {
        reveal(Seq::filter);
        assert(rest@.filter(pred) =~= Seq::<Packet>::empty());
        assert(kept@.to_multiset() =~= orig.filter(pred).to_multiset());
    }
    let ghost kv = kept@;
    let sorted = sort_by_key(kept);
    proof {
        assert forall|i: int| 0 <= i < sorted@.len() implies is_packet_id((#[trigger] sorted@[i]).id@) && ((forall|k: int| 0 <= k < orig.len() ==> (#[trigger] orig[k]).wf()) ==> sorted@[i].wf()) by {
            assert(sorted@.to_multiset().contains(sorted@[i]));
            assert(kv.contains(sorted@[i]));
        }
    }
    let index = Index { packets: sorted };
    proof {
        assert forall|i: int| 0 <= i < index@.len() implies is_packet_id(#[trigger] index@[i].id) by {
            assert(index@[i] == index.packets@[i]@);
        }
    }
    index
}

/// `root/.outpack/metadata/<id>`.
pub open spec fn metadata_path(root: Seq<char>, id: Seq<char>) -> Seq<char> {
    crate::store::root_prefix(root) + ".outpack/metadata/"@ + id
}

/// Where the metadata of packet `id` lives, given whether that file exists.
pub fn get_metadata_file(root_path: &str, id: &str, exists: bool) -> (r: Result<String, OutpackError>)
    ensures
        exists ==> r is Ok && r->Ok_0@ == metadata_path(root_path@, id@),
        !exists ==> r is Err && r->Err_0.kind == Some(ErrorKind::NotFound) && r->Err_0.detail@
            == "packet with id '"@ + id@ + "' does not exist"@,
{
    if !exists {
        let mut m: Vec<char> = Vec::new();
        push_str(&mut m, "packet with id '");
        push_str(&mut m, id);
        push_str(&mut m, "' does not exist");
        return Err(OutpackError::new(ErrorKind::NotFound, string_of(&m)));
    }
    let r = chars_of(root_path);
    let mut p: Vec<char> = Vec::new();
    if r.len() > 0 {
        push_str(&mut p, root_path);
        if r[r.len() - 1] != '/' {
            p.push('/');
        }
    }
    let ghost prefix = p@;
    push_str(&mut p, ".outpack/metadata/");
    push_str(&mut p, id);
    proof {
        assert(prefix =~= crate::store::root_prefix(root_path@));
        assert(p@ =~= metadata_path(root_path@, id@));
    }
    Ok(string_of(&p))
}

} // verus!
