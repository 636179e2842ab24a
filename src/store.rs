//! The content-addressed file store: where a file with a given hash lives,
//! which hashes are missing, and how a new file is taken in.

use vstd::prelude::*;

use crate::hash::{
    alg_name, hash_text_matches, is_hash_text, lemma_parse_outcome, lemma_parses_as_unique,
    parse_hash, parses_as, validate_hash_data, HashAlgorithm,
};
use crate::responses::{ErrorKind, OutpackError};
use crate::text::{chars_of, push_str, slice_chars, str_eq, string_of};

verus! {

/// The directory prefix for paths under `root`: `root/`, or nothing for an
/// empty root.
pub open spec fn root_prefix(root: Seq<char>) -> Seq<char> {
    if root.len() == 0 {
        Seq::empty()
    } else if root.last() == '/' {
        root
    } else {
        root + seq!['/']
    }
}

/// `root/.outpack/files/<algorithm>/<first two digits>/<other digits>`.
pub open spec fn store_path(root: Seq<char>, a: HashAlgorithm, v: Seq<char>) -> Seq<char> {
    root_prefix(root) + ".outpack/files/"@ + alg_name(a) + seq!['/'] + v.subrange(0, 2) + seq!['/']
        + v.subrange(2, v.len() as int)
}

/// `h` is a hash text with at least two digits, so it has a place in the
/// store.
pub open spec fn valid_store_hash(h: Seq<char>) -> bool {
    exists|a: HashAlgorithm, v: Seq<char>| parses_as(h, a, v) && v.len() >= 2
}

/// `p` is the place in the store under `root` of the file with hash `h`.
pub open spec fn stored_at(root: Seq<char>, h: Seq<char>, p: Seq<char>) -> bool {
    exists|a: HashAlgorithm, v: Seq<char>| parses_as(h, a, v) && v.len() >= 2 && p == store_path(root, a, v)
}

/// The text `invalid hash '<h>'`.
pub open spec fn invalid_hash_text(h: Seq<char>) -> Seq<char> {
    "invalid hash '"@ + h + "'"@
}

pub proof fn lemma_stored_at_unique(root: Seq<char>, h: Seq<char>, p: Seq<char>, q: Seq<char>)
    requires
        stored_at(root, h, p),
        stored_at(root, h, q),
    ensures
        p == q,
{
    let (a, v) = choose|a: HashAlgorithm, v: Seq<char>| parses_as(h, a, v) && v.len() >= 2 && p == store_path(root, a, v);
    let (b, w) = choose|a: HashAlgorithm, v: Seq<char>| parses_as(h, a, v) && v.len() >= 2 && q == store_path(root, a, v);
    lemma_parses_as_unique(h, a, v, b, w);
}

fn invalid_hash(hash: &str) -> (e: OutpackError)
    ensures
        e.kind == Some(ErrorKind::InvalidInput),
        e.detail@ == invalid_hash_text(hash@),
{
    let mut m: Vec<char> = Vec::new();
    push_str(&mut m, "invalid hash '");
    push_str(&mut m, hash);
    push_str(&mut m, "'");
    OutpackError::new(ErrorKind::InvalidInput, string_of(&m))
}

/// Where the file with hash `hash` lives in the store under `root`.
pub fn file_path(root: &str, hash: &str) -> (r: Result<String, OutpackError>)
    ensures
        match r {
            Ok(p) => stored_at(root@, hash@, p@),
            Err(e) => !valid_store_hash(hash@) && e.kind == Some(ErrorKind::InvalidInput)
                && e.detail@ == invalid_hash_text(hash@),
        },
{
    let parsed = parse_hash(hash);
    proof {
        lemma_parse_outcome(hash@, parsed);
    }
    let h = match parsed {
        Ok(h) => h,
        Err(_) => {
            return Err(invalid_hash(hash));
        },
    };
    let v = chars_of(h.value.as_str());
    if v.len() < 2 {
        proof {
            if valid_store_hash(hash@) {
                let (a, w) = choose|a: HashAlgorithm, w: Seq<char>| parses_as(hash@, a, w) && w.len() >= 2;
                lemma_parses_as_unique(hash@, a, w, h.algorithm, h.value@);
            }
        }
        return Err(invalid_hash(hash));
    }
    let r = chars_of(root);
    let mut p: Vec<char> = Vec::new();
    if r.len() > 0 {
        push_str(&mut p, root);
        if r[r.len() - 1] != '/' {
            p.push('/');
        }
    }
    let ghost prefix = p@;
    push_str(&mut p, ".outpack/files/");
    push_str(&mut p, h.algorithm.to_string().as_str());
    p.push('/');
    let mut head = slice_chars(&v, 0, 2);
    p.append(&mut head);
    p.push('/');
    let mut tail = slice_chars(&v, 2, v.len());
    p.append(&mut tail);
    proof {
        assert(prefix =~= root_prefix(root@));
        assert(p@ =~= store_path(root@, h.algorithm, h.value@));
    }
    Ok(string_of(&p))
}

/// The hashes of `w` whose files are missing (`p[i]` false), each once, in
/// the order of first appearance.
pub open spec fn missing_spec(w: Seq<Seq<char>>, p: Seq<bool>) -> Seq<Seq<char>>
    decreases w.len(),
{
    if w.len() == 0 {
        Seq::empty()
    } else {
        let prev = missing_spec(w.drop_last(), p.subrange(0, w.len() - 1));
        if !p[w.len() - 1] && !prev.contains(w.last()) {
            prev.push(w.last())
        } else {
            prev
        }
    }
}

pub open spec fn texts(v: Seq<String>) -> Seq<Seq<char>> {
    v.map_values(|s: String| s@)
}

fn contains_text(v: &Vec<String>, s: &str) -> (r: bool)
    ensures
        r == texts(v@).contains(s@),
{
    let mut i: usize = 0;
    while i < v.len()
        invariant
            i <= v@.len(),
            forall|j: int| 0 <= j < i ==> v@[j]@ != s@,
        decreases v@.len() - i,
    {
        if str_eq(v[i].as_str(), s) {
            assert(texts(v@)[i as int] == s@);
            return true;
        }
        i = i + 1;
    }
    proof {
        if texts(v@).contains(s@) {
            let j = choose|j: int| 0 <= j < texts(v@).len() && texts(v@)[j] == s@;
            assert(v@[j]@ == s@);
        }
    }
    false
}

/// The hashes of `wanted` that the store lacks, given whether each one's
/// file exists (`present`): each once, in the order asked. Fails on the
/// first hash that has no place in the store.
pub fn get_missing_files(root: &str, wanted: &Vec<String>, present: &Vec<bool>) -> (r: Result<Vec<String>, OutpackError>)
    requires
        present@.len() == wanted@.len(),
    ensures
        match r {
            Ok(v) => (forall|i: int| 0 <= i < wanted@.len() ==> valid_store_hash(#[trigger] wanted@[i]@))
                && texts(v@) == missing_spec(texts(wanted@), present@),
            Err(e) => exists|i: int|
                0 <= i < wanted@.len() && !valid_store_hash(#[trigger] wanted@[i]@) && (forall|j: int|
                    0 <= j < i ==> valid_store_hash(#[trigger] wanted@[j]@)) && e.kind == Some(
                    ErrorKind::InvalidInput,
                ) && e.detail@ == invalid_hash_text(wanted@[i]@),
        },
{
    let mut i: usize = 0;
    while i < wanted.len()
        invariant
            i <= wanted@.len(),
            forall|j: int| 0 <= j < i ==> valid_store_hash(#[trigger] wanted@[j]@),
        decreases wanted@.len() - i,
    {
        match file_path(root, wanted[i].as_str()) {
            Ok(_) => {
                proof {
                    let p = choose|p: Seq<char>| stored_at(root@, wanted@[i as int]@, p);
                }
            },
            Err(e) => {
                return Err(e);
            },
        }
        i = i + 1;
    }
    let mut out: Vec<String> = Vec::new();
    let mut k: usize = 0;
    while k < wanted.len()
        invariant
            k <= wanted@.len() == present@.len(),
            texts(out@) == missing_spec(texts(wanted@.subrange(0, k as int)), present@.subrange(0, k as int)),
        decreases wanted@.len() - k,
    {
        let ghost prev = texts(out@);
        let ghost w = texts(wanted@.subrange(0, k as int + 1));
        let ghost pp = present@.subrange(0, k as int + 1);
        proof {
            assert(w.drop_last() =~= texts(wanted@.subrange(0, k as int)));
            assert(pp.subrange(0, k as int) =~= present@.subrange(0, k as int));
            assert(w.last() == wanted@[k as int]@);
            assert(pp[k as int] == present@[k as int]);
        }
        if !present[k] && !contains_text(&out, wanted[k].as_str()) {
            let cs = chars_of(wanted[k].as_str());
            out.push(string_of(&cs));
            proof {
                assert(texts(out@) =~= prev.push(wanted@[k as int]@));
            }
        }
        k = k + 1;
    }
    proof {
        assert(wanted@.subrange(0, wanted@.len() as int) =~= wanted@);
        assert(present@.subrange(0, present@.len() as int) =~= present@);
        assert forall|i: int| 0 <= i < wanted@.len() implies valid_store_hash(#[trigger] wanted@[i]@) by {}
    }
    Ok(out)
}

/// A file may enter the store under hash `h`: `h` has a place in the store
/// and `data` has that hash.
pub open spec fn can_put(h: Seq<char>, data: Seq<u8>) -> bool {
    valid_store_hash(h) && hash_text_matches(data, h)
}

/// The place in the store under `root` of the file with hash `h`.
pub open spec fn put_target(root: Seq<char>, h: Seq<char>) -> Seq<char> {
    choose|p: Seq<char>| stored_at(root, h, p)
}

/// The store's files (path to contents) after taking in `data` under hash
/// `h`: unchanged if a file is already in place, else with `data` added;
/// `None` if the file may not enter.
pub open spec fn put_spec(files: Map<Seq<char>, Seq<u8>>, root: Seq<char>, h: Seq<char>, data: Seq<u8>) -> Option<Map<Seq<char>, Seq<u8>>> {
    if can_put(h, data) {
        let p = put_target(root, h);
        if files.contains_key(p) {
            Some(files)
        } else {
            Some(files.insert(p, data))
        }
    } else {
        None
    }
}

/// Taking a file in twice is the same as taking it in once, and afterwards
/// the file at its place holds exactly its bytes (given that nothing else is
/// already stored there).
pub proof fn lemma_put_idempotent(files: Map<Seq<char>, Seq<u8>>, root: Seq<char>, h: Seq<char>, data: Seq<u8>)
    requires
        can_put(h, data),
        forall|p: Seq<char>| stored_at(root, h, p) && files.contains_key(p) ==> files[p] == data,
    ensures
        put_spec(files, root, h, data) is Some,
        put_spec(put_spec(files, root, h, data)->Some_0, root, h, data) == put_spec(files, root, h, data),
        forall|p: Seq<char>| #[trigger] stored_at(root, h, p) ==> put_spec(files, root, h, data)->Some_0.contains_key(p)
            && put_spec(files, root, h, data)->Some_0[p] == data,
{
    let (a, v) = choose|a: HashAlgorithm, v: Seq<char>| parses_as(h, a, v) && v.len() >= 2;
    assert(stored_at(root, h, store_path(root, a, v)));
    let p = put_target(root, h);
    assert forall|q: Seq<char>| #[trigger] stored_at(root, h, q) implies put_spec(files, root, h, data)->Some_0.contains_key(q)
        && put_spec(files, root, h, data)->Some_0[q] == data by {
        lemma_stored_at_unique(root, h, p, q);
    }
}

/// What to do with a staged file once it is checked.
#[derive(Debug)]
pub enum PutAction {
    /// A file with this hash is already in place: drop the staged copy.
    Discard,
    /// Create the parent directories and rename the staged file to this path.
    MoveTo(String),
}

/// The text `Hash does not match file contents. Expected '<h>'`.
pub open spec fn mismatch_text(h: Seq<char>) -> Seq<char> {
    "Hash does not match file contents. Expected '"@ + h + "'"@
}

/// The store's files after carrying out the outcome of `put_file`.
pub open spec fn apply_put(files: Map<Seq<char>, Seq<u8>>, r: Result<PutAction, OutpackError>, data: Seq<u8>) -> Option<Map<Seq<char>, Seq<u8>>> {
    match r {
        Ok(PutAction::Discard) => Some(files),
        Ok(PutAction::MoveTo(p)) => Some(files.insert(p@, data)),
        Err(_) => None,
    }
}

/// Decides how a staged file with contents `staged` enters the store under
/// `root` as hash `hash`, given whether a file is already at its place.
/// Carrying out the decision on any store whose files agree with
/// `target_exists` gives `put_spec`, so `lemma_put_idempotent` applies: a
/// second put of the same file changes nothing.
pub fn put_file(root: &str, staged: &[u8], hash: &str, target_exists: bool) -> (r: Result<PutAction, OutpackError>)
    ensures
        forall|files: Map<Seq<char>, Seq<u8>>|
            files.contains_key(put_target(root@, hash@)) == target_exists ==> #[trigger] apply_put(
                files,
                r,
                staged@,
            ) == put_spec(files, root@, hash@, staged@),
        match r {
            Ok(PutAction::Discard) => can_put(hash@, staged@) && target_exists,
            Ok(PutAction::MoveTo(p)) => can_put(hash@, staged@) && !target_exists && stored_at(root@, hash@, p@),
            Err(e) => !can_put(hash@, staged@) && e.kind == Some(ErrorKind::InvalidInput)
                && e.detail@ == (if hash_text_matches(staged@, hash@) {
                invalid_hash_text(hash@)
            } else {
                mismatch_text(hash@)
            }),
        },
{
    match validate_hash_data(staged, hash) {
        Ok(()) => {},
        Err(_) => {
            let mut m: Vec<char> = Vec::new();
            push_str(&mut m, "Hash does not match file contents. Expected '");
            push_str(&mut m, hash);
            push_str(&mut m, "'");
            return Err(OutpackError::new(ErrorKind::InvalidInput, string_of(&m)));
        },
    }
    let path = match file_path(root, hash) {
        Ok(p) => p,
        Err(e) => {
            return Err(e);
        },
    };
    proof {
        let t = put_target(root@, hash@);
        assert(stored_at(root@, hash@, path@));
        assert(stored_at(root@, hash@, t));
        lemma_stored_at_unique(root@, hash@, path@, t);
    }
    if target_exists {
        Ok(PutAction::Discard)
    } else {
        Ok(PutAction::MoveTo(path))
    }
}

} // verus!
