//! Descriptions of the segments of a sink, derived from its own.
//!
//! The owner derives them and hands them to each worker, so that both sides
//! name the same segments.
use vstd::prelude::*;

use crate::text;

verus! {

/// Description of the pool.
pub open spec fn pool_text(base: Seq<char>) -> Seq<char> {
    base + "/pool"@
}

/// Description of the ack channel.
pub open spec fn ack_text(base: Seq<char>) -> Seq<char> {
    base + "/ack"@
}

/// Description of the control channel of a worker.
pub open spec fn control_text(base: Seq<char>, worker_id: u32) -> Seq<char> {
    base + "/control/"@ + text::dec(worker_id as nat)
}

/// Description of the pool: `"<base>/pool"`.
pub fn pool(base: &str) -> (r: String)
    ensures
        r@ == pool_text(base@),
{
    let mut r = String::from_str(base);
    r.append("/pool");
    r
}

/// Description of the ack channel: `"<base>/ack"`.
pub fn ack(base: &str) -> (r: String)
    ensures
        r@ == ack_text(base@),
{
    let mut r = String::from_str(base);
    r.append("/ack");
    r
}

/// Description of a control channel: `"<base>/control/<worker_id>"`.
pub fn control(base: &str, worker_id: u32) -> (r: String)
    ensures
        r@ == control_text(base@, worker_id),
{
    let mut r = String::from_str(base);
    r.append("/control/");
    text::push_dec(&mut r, worker_id as u64);
    r
}

/// The descriptions of one sink's segments all differ.
pub proof fn law_names_are_distinct(base: Seq<char>, i: u32, j: u32)
    ensures
        pool_text(base) != ack_text(base),
        pool_text(base) != control_text(base, i),
        ack_text(base) != control_text(base, i),
        i != j ==> control_text(base, i) != control_text(base, j),
{
    reveal_strlit("/pool");
    reveal_strlit("/ack");
    reveal_strlit("/control/");
    let n = base.len() as int;
    assert(pool_text(base)[n + 1] == 'p');
    assert(ack_text(base)[n + 1] == 'a');
    assert(control_text(base, i)[n + 1] == 'c');
    if control_text(base, i) == control_text(base, j) {
        let prefix = base + "/control/"@;
        assert(text::dec(i as nat) =~= control_text(base, i).skip(prefix.len() as int));
        assert(text::dec(j as nat) =~= control_text(base, j).skip(prefix.len() as int));
        text::lemma_dec_round_trip(i as nat);
        text::lemma_dec_round_trip(j as nat);
    }
}

/// How the descriptions of a sink's segments are made of its own.
pub proof fn law_how_descriptions_are_made(base: Seq<char>, i: u32)
    ensures
        pool_text(base) == base + "/pool"@,
        ack_text(base) == base + "/ack"@,
        control_text(base, i) == base + "/control/"@ + text::dec(i as nat),
{
}

} // verus!
