//! The serialization layer for task stores: the canonical textual encoding
//! of a store in each supported format, its inverse, and the load policy
//! that treats missing or empty content as an empty store.
//!
//! The decoder accepts exactly the canonical form this module writes: for
//! every well-formed store value `v` and format `f`, decoding
//! `encode_store(v, f)` yields `v` back, and decoding anything that is not a
//! canonical encoding fails. That round-trip is stated in the contracts
//! below and verified once, over all formats and store values.

use vstd::prelude::*;

use crate::chars::{chars_eq, chars_to_string, string_to_chars};
use crate::conversion::Formats;
use crate::engine::{decode_entries, encode_entries, enc_store};
use crate::error::TodoError;
use crate::formats::{enc_store_fmt, fmt_toks, make_toks};
use crate::task::{Task, TaskView};
use crate::tasks::{entries_view, store_wf, Tasks};

verus! {

/// Whether adjacent identifiers ascend; with transitivity this is exactly
/// store well-formedness.
fn check_sorted(ents: &Vec<(usize, Task)>) -> (r: bool)
    ensures
        r == store_wf(entries_view(ents@)),
{
    let ghost v = entries_view(ents@);
    let n = ents.len();
    if n == 0 {
        return true;
    }
    let mut m: usize = 0;
    while m + 1 < n
        invariant
            m < n,
            n == ents@.len(),
            v == entries_view(ents@),
            forall|k: int| 0 <= k < m ==> (#[trigger] v[k]).0 < v[k + 1].0,
        decreases n - m,
    {
        if ents[m].0 >= ents[m + 1].0 {
            proof {
                assert(v[m as int].0 >= v[m + 1].0);
            }
            return false;
        }
        m = m + 1;
    }
    proof {
        lemma_sorted_from_adjacent(v);
    }
    true
}

/// A sequence whose adjacent identifiers ascend is well-formed.
proof fn lemma_sorted_from_adjacent(v: Seq<(usize, TaskView)>)
    requires
        forall|k: int| 0 <= k < v.len() - 1 ==> (#[trigger] v[k]).0 < v[k + 1].0,
    ensures
        store_wf(v),
{
    assert forall|i: int, j: int| 0 <= i < j < v.len() implies (#[trigger] v[i]).0 < (
    #[trigger] v[j]).0 by {
        lemma_chain(v, i, j);
    }
}

/// Chains adjacent ascent from position `i` to position `j`.
proof fn lemma_chain(v: Seq<(usize, TaskView)>, i: int, j: int)
    requires
        forall|k: int| 0 <= k < v.len() - 1 ==> (#[trigger] v[k]).0 < v[k + 1].0,
        0 <= i < j < v.len(),
    ensures
        v[i].0 < v[j].0,
    decreases j - i,
{
    if j == i + 1 {
        assert(v[i].0 < v[i + 1].0);
    } else {
        lemma_chain(v, i, j - 1);
        assert(v[j - 1].0 < v[j].0);
    }
}

/// Encodes a store in the canonical form of a format.
pub fn encode_store(tasks: &Tasks, format: Formats) -> (r: String)
    ensures
        r@ == enc_store_fmt(tasks@, format),
{
    let toks = make_toks(format);
    let out = encode_entries(tasks.entries(), &toks);
    chars_to_string(&out)
}

/// Decodes the canonical encoding of a store. Exactly the encodings produced
/// by `encode_store` are accepted: decoding `encode_store(v, f)` yields `v`
/// back (the round-trip law), and every accepted input is the canonical
/// encoding of the returned store.
pub fn decode_store(content: &str, format: Formats) -> (r: Result<Tasks, TodoError>)
    ensures
        forall|v: Seq<(usize, TaskView)>|
            store_wf(v) && content@ == enc_store_fmt(v, format) ==> (r matches Ok(ts) && ts@ == v),
        r matches Ok(ts) ==> store_wf(ts@) && content@ == enc_store_fmt(ts@, format),
        r matches Err(e) ==> e == TodoError::Decode,
{
    let cs = string_to_chars(content);
    let toks = make_toks(format);
    match decode_entries(&cs, &toks) {
        None => {
            proof {
                assert forall|v: Seq<(usize, TaskView)>|
                    !(store_wf(v) && content@ == enc_store_fmt(v, format)) by {
                    if content@ == enc_store_fmt(v, format) {
                        assert(cs@ == enc_store(v, toks@));
                    }
                }
            }
            Err(TodoError::Decode)
        },
        Some(ents) => {
            proof {
                assert forall|v: Seq<(usize, TaskView)>|
                    content@ == enc_store_fmt(v, format) implies entries_view(ents@) == v by {
                    assert(cs@ == enc_store(v, toks@));
                }
            }
            if !check_sorted(&ents) {
                return Err(TodoError::Decode);
            }
            let ts = Tasks::from_entries(ents);
            let out = encode_entries(ts.entries(), &toks);
            if chars_eq(&out, &cs) {
                Ok(ts)
            } else {
                proof {
                    assert forall|v: Seq<(usize, TaskView)>|
                        !(store_wf(v) && content@ == enc_store_fmt(v, format)) by {
                        if content@ == enc_store_fmt(v, format) {
                            assert(cs@ == enc_store(v, toks@));
                        }
                    }
                }
                Err(TodoError::Decode)
            }
        },
    }
}

/// Loads a store from the content of the task file: absent or empty content
/// is an empty store (the create-on-missing policy), anything else must be a
/// canonical encoding.
pub fn load_store_content(content: &str, format: Formats) -> (r: Result<Tasks, TodoError>)
    ensures
        content@.len() == 0 ==> (r matches Ok(ts) && ts@ == Seq::<(usize, TaskView)>::empty()),
        forall|v: Seq<(usize, TaskView)>|
            store_wf(v) && content@ == enc_store_fmt(v, format) ==> (r matches Ok(ts) && ts@ == v),
        r matches Ok(ts) ==> store_wf(ts@) && (content@.len() == 0 || content@ == enc_store_fmt(
            ts@,
            format,
        )),
        r matches Err(e) ==> e == TodoError::Decode,
{
    if content.is_empty() {
        let ts = Tasks::new();
        proof {
            assert forall|v: Seq<(usize, TaskView)>|
                store_wf(v) && content@ == enc_store_fmt(v, format) implies v == Seq::<
                (usize, TaskView),
            >::empty() by {
                if v.len() > 0 {
                    crate::engine::lemma_enc_rec_len(v[0], fmt_toks(format));
                }
                assert(v =~= Seq::<(usize, TaskView)>::empty());
            }
        }
        Ok(ts)
    } else {
        decode_store(content, format)
    }
}

} // verus!
