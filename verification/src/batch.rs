//! The accumulation logic behind batched fetches - several endpoints page
//! their results, and a caller's loop keeps requesting until a batch comes
//! back short - and the ordering of host-probe results. What each round
//! does to the running series is decided and proved here; issuing the
//! requests is the caller's affair.

use vstd::prelude::*;
use crate::types::{Kline, KlineResponse, Trade, TradeResponse};
use crate::messages::CodeResponse;

verus! {

/// Folds one bar batch into the running series: newer batches were
/// fetched first, so the just-fetched (older) batch goes in front.
/// Counts wrap at sixteen bits, as they do on the wire. Returns true
/// exactly when the batch came back short, which ends the fetch loop.
pub fn kline_all_step(acc: &mut KlineResponse, start: &mut u16, resp: KlineResponse, batch_size: u16) -> (done:
    bool)
    ensures
        final(acc).list@ == resp.list@ + old(acc).list@,
        final(acc).count as int == (old(acc).count + resp.count) % 0x10000,
        done == (resp.count < batch_size),
        !done ==> *final(start) as int == (*old(start) + batch_size) % 0x10000,
        done ==> *final(start) == *old(start),
{
    let done: bool = resp.count < batch_size;
    let sum: u32 = acc.count as u32 + resp.count as u32;
    acc.count = (sum % 0x10000) as u16;
    let mut new_list: Vec<Kline> = resp.list;
    let mut old_list: Vec<Kline> = Vec::new();
    core::mem::swap(&mut old_list, &mut acc.list);
    new_list.append(&mut old_list);
    acc.list = new_list;
    if !done {
        let next: u32 = *start as u32 + batch_size as u32;
        *start = (next % 0x10000) as u16;
    }
    done
}

/// Folds one tick-trade batch into the running series, the same way bar
/// batches fold.
pub fn trade_all_step(acc: &mut TradeResponse, start: &mut u16, resp: TradeResponse, batch_size: u16) -> (done:
    bool)
    ensures
        final(acc).list@ == resp.list@ + old(acc).list@,
        final(acc).count as int == (old(acc).count + resp.count) % 0x10000,
        done == (resp.count < batch_size),
        !done ==> *final(start) as int == (*old(start) + batch_size) % 0x10000,
        done ==> *final(start) == *old(start),
{
    let done: bool = resp.count < batch_size;
    let sum: u32 = acc.count as u32 + resp.count as u32;
    acc.count = (sum % 0x10000) as u16;
    let mut new_list: Vec<Trade> = resp.list;
    let mut old_list: Vec<Trade> = Vec::new();
    core::mem::swap(&mut old_list, &mut acc.list);
    new_list.append(&mut old_list);
    acc.list = new_list;
    if !done {
        let next: u32 = *start as u32 + batch_size as u32;
        *start = (next % 0x10000) as u16;
    }
    done
}

/// Folds one symbol-list page into the running list: pages accumulate in
/// the order they arrive.
pub fn code_all_step(acc: &mut CodeResponse, start: &mut u16, resp: CodeResponse, batch_size: u16) -> (done:
    bool)
    ensures
        final(acc).codes@ == old(acc).codes@ + resp.codes@,
        final(acc).count as int == (old(acc).count + resp.count) % 0x10000,
        done == (resp.count < batch_size),
        !done ==> *final(start) as int == (*old(start) + batch_size) % 0x10000,
        done ==> *final(start) == *old(start),
{
    let done: bool = resp.count < batch_size;
    let sum: u32 = acc.count as u32 + resp.count as u32;
    acc.count = (sum % 0x10000) as u16;
    let mut page: Vec<crate::types::StockCode> = resp.codes;
    acc.codes.append(&mut page);
    if !done {
        let next: u32 = *start as u32 + batch_size as u32;
        *start = (next % 0x10000) as u16;
    }
    done
}

/// Scans a bar batch from its newest (last) element backward and finds
/// where the predicate stops holding: returns `(cut, fully)`, where
/// `fully` says every element satisfied the predicate, and otherwise
/// `cut - 1` is the newest element that refused it. Elements from `cut`
/// on all satisfied it.
pub fn scan_cut<F: Fn(&Kline) -> bool>(list: &Vec<Kline>, util_fn: &F) -> (r: (usize, bool))
    requires
        forall|k: &Kline| #[trigger] call_requires(*util_fn, (k,)),
    ensures
        r.1 ==> r.0 == 0,
        !r.1 ==> 1 <= r.0 <= list@.len() && call_ensures(*util_fn, (&list@[r.0 - 1],), false),
        forall|i: int|
            r.0 <= i < list@.len() ==> call_ensures(*util_fn, (&list@[i],), true),
{
    let n: usize = list.len();
    let mut j: usize = n;
    while j > 0
        invariant
            n == list@.len(),
            j <= n,
            forall|k: &Kline| #[trigger] call_requires(*util_fn, (k,)),
            forall|i: int| j <= i < n ==> call_ensures(*util_fn, (&list@[i],), true),
        decreases j,
    {
        let keep: bool = util_fn(&list[j - 1]);
        if !keep {
            return (j, false);
        }
        j = j - 1;
    }
    (0, true)
}

/// Folds one bar batch into a running predicate-limited series: the
/// suffix of the batch that satisfies the predicate (scanning newest to
/// oldest) goes in front of the series, and the fetch ends either on a
/// short batch or at the first bar the predicate refuses.
pub fn kline_until_step<F: Fn(&Kline) -> bool>(
    acc: &mut KlineResponse,
    resp: KlineResponse,
    batch_size: u16,
    util_fn: &F,
) -> (done: bool)
    requires
        forall|k: &Kline| #[trigger] call_requires(*util_fn, (k,)),
    ensures
        exists|cut: int|
            {
                &&& 0 <= cut <= resp.list@.len()
                &&& final(acc).list@ == resp.list@.skip(cut) + old(acc).list@
                &&& final(acc).count as int == (old(acc).count + (resp.list@.len() - cut))
                    % 0x10000
                &&& (forall|i: int|
                    cut <= i < resp.list@.len() ==> call_ensures(*util_fn, (&resp.list@[i],), true))
                &&& (cut > 0 ==> call_ensures(*util_fn, (&resp.list@[cut - 1],), false))
                &&& done == (cut > 0 || resp.count < batch_size)
            },
{
    let ghost resp0 = resp.list@;
    let (cut, fully) = scan_cut(&resp.list, util_fn);
    let n: usize = resp.list.len();
    if fully {
        let kept: usize = n % 0x10000;
        let sum: u32 = acc.count as u32 + kept as u32;
        acc.count = (sum % 0x10000) as u16;
        proof {
            vstd::arithmetic::div_mod::lemma_add_mod_noop(
                old(acc).count as int,
                resp0.len() as int,
                0x10000,
            );
        }
        let mut new_list: Vec<Kline> = resp.list;
        let mut old_list: Vec<Kline> = Vec::new();
        core::mem::swap(&mut old_list, &mut acc.list);
        new_list.append(&mut old_list);
        acc.list = new_list;
        proof {
            assert(resp0.skip(0) =~= resp0);
        }
        resp.count < batch_size
    } else {
        let mut rest: Vec<Kline> = resp.list;
        let mut valid: Vec<Kline> = rest.split_off(cut);
        let kept: usize = valid.len() % 0x10000;
        let sum: u32 = acc.count as u32 + kept as u32;
        acc.count = (sum % 0x10000) as u16;
        proof {
            vstd::arithmetic::div_mod::lemma_add_mod_noop(
                old(acc).count as int,
                valid@.len() as int,
                0x10000,
            );
        }
        let mut old_list: Vec<Kline> = Vec::new();
        core::mem::swap(&mut old_list, &mut acc.list);
        valid.append(&mut old_list);
        acc.list = valid;
        true
    }
}

/// Nothing survives the scan of a batch whose every bar the predicate
/// refuses: the series a predicate-limited fetch accumulates stays as it
/// was, its count too, and the fetch ends with that batch (on the first
/// batch, the series comes back empty with count zero).
pub proof fn lemma_until_all_false<F: Fn(&Kline) -> bool>(
    util_fn: F,
    before: Seq<Kline>,
    after: Seq<Kline>,
    batch: Seq<Kline>,
    count_before: int,
    count_after: int,
    cut: int,
    done: bool,
    batch_short: bool,
)
    requires
        forall|k: &Kline, out: bool| call_ensures(util_fn, (k,), out) ==> out == false,
        0 <= cut <= batch.len(),
        after == batch.skip(cut) + before,
        0 <= count_before < 0x10000,
        count_after == (count_before + (batch.len() - cut)) % 0x10000,
        forall|i: int| cut <= i < batch.len() ==> call_ensures(util_fn, (&batch[i],), true),
        done == (cut > 0 || batch_short),
        batch.len() > 0,
    ensures
        after == before,
        count_after == count_before,
        done,
{
    if cut < batch.len() {
        assert(call_ensures(util_fn, (&batch[cut],), true));
        assert(false);
    }
    assert(cut == batch.len());
    assert(batch.skip(cut) =~= Seq::<Kline>::empty());
    assert(batch.skip(cut) + before =~= before);
}

/// Prepending a strictly newer, internally ordered batch to an ordered
/// series keeps the whole series ordered: bar times stay strictly
/// increasing across the splice, which is how a batched fetch keeps its
/// series monotonic.
pub proof fn lemma_concat_monotonic(older: Seq<Kline>, newer: Seq<Kline>)
    requires
        forall|i: int, j: int|
            0 <= i < j < older.len() ==> older[i].time.secs < older[j].time.secs,
        forall|i: int, j: int|
            0 <= i < j < newer.len() ==> newer[i].time.secs < newer[j].time.secs,
        older.len() > 0 && newer.len() > 0 ==> older.last().time.secs < newer.first().time.secs,
    ensures
        forall|i: int, j: int|
            0 <= i < j < (older + newer).len() ==> (older + newer)[i].time.secs < (older
                + newer)[j].time.secs,
{
    assert forall|i: int, j: int|
        0 <= i < j < (older + newer).len() implies (older + newer)[i].time.secs < (older
        + newer)[j].time.secs by {
        let n = older.len() as int;
        if j < n {
        } else if i >= n {
            assert((older + newer)[i] == newer[i - n]);
            assert((older + newer)[j] == newer[j - n]);
        } else {
            assert((older + newer)[i] == older[i]);
            assert((older + newer)[j] == newer[j - n]);
            assert(older[i].time.secs <= older.last().time.secs) by {
                if i < n - 1 {
                    assert(older[i].time.secs < older[n - 1].time.secs);
                }
            }
            assert(newer.first().time.secs <= newer[j - n].time.secs) by {
                if j - n > 0 {
                    assert(newer[0].time.secs < newer[j - n].time.secs);
                }
            }
        }
    }
}

/// Orders latency-probe outcomes, fastest first: each pair is a latency
/// and the probe's original position. The result holds exactly the given
/// pairs, ordered by latency, ties keeping their arrival order.
pub fn sort_probes(probes: Vec<(u64, usize)>) -> (r: Vec<(u64, usize)>)
    ensures
        r@.len() == probes@.len(),
        forall|i: int, j: int| 0 <= i < j < r@.len() ==> (#[trigger] r@[i]).0 <= (#[trigger] r@[j]).0,
        r@.to_multiset() == probes@.to_multiset(),
{
    proof {
        broadcast use vstd::seq_lib::group_to_multiset_ensures;
    }
    let mut out: Vec<(u64, usize)> = Vec::new();
    let mut i: usize = 0;
    while i < probes.len()
        invariant
            i <= probes@.len(),
            out@.len() == i,
            forall|p: int, q: int|
                0 <= p < q < out@.len() ==> (#[trigger] out@[p]).0 <= (#[trigger] out@[q]).0,
            out@.to_multiset() == probes@.subrange(0, i as int).to_multiset(),
        decreases probes@.len() - i,
    {
        proof {
            broadcast use vstd::seq_lib::group_to_multiset_ensures;
        }
        let x: (u64, usize) = probes[i];
        let mut k: usize = 0;
        while k < out.len() && out[k].0 <= x.0
            invariant
                k <= out@.len(),
                forall|p: int| 0 <= p < k ==> (#[trigger] out@[p]).0 <= x.0,
            decreases out@.len() - k,
        {
            k = k + 1;
        }
        let ghost before = out@;
        out.insert(k, x);
        i = i + 1;
        proof {
            assert(out@ == before.insert(k as int, x));
            assert(out@.remove(k as int) =~= before);
            assert(before.to_multiset() =~= out@.to_multiset().remove(x));
            assert(out@[k as int] == x);
            assert(out@.to_multiset().count(x) > 0);
            assert(out@.to_multiset() =~= before.to_multiset().insert(x));
            assert(probes@.subrange(0, i as int).drop_last() =~= probes@.subrange(0, i - 1));
            assert(probes@.subrange(0, i as int).to_multiset() =~= probes@.subrange(
                0,
                i - 1,
            ).to_multiset().insert(x)) by {
                assert(probes@.subrange(0, i as int) =~= probes@.subrange(0, i - 1).push(x));
            }
            assert forall|p: int, q: int|
                0 <= p < q < out@.len() implies (#[trigger] out@[p]).0 <= (#[trigger] out@[q]).0 by {
                if q < k {
                    assert(out@[p] == before[p] && out@[q] == before[q]);
                } else if p > k {
                    assert(out@[p] == before[p - 1] && out@[q] == before[q - 1]);
                } else if p == k {
                    assert(out@[p] == x && out@[q] == before[q - 1]);
                    assert(x.0 < before[k as int].0 || k as int == before.len());
                    assert(before[k as int].0 <= before[q - 1].0 || q - 1 == k);
                } else if q == k {
                    assert(out@[p] == before[p] && out@[q] == x);
                } else {
                    assert(out@[p] == before[p] && out@[q] == before[q - 1]);
                    assert(x.0 < before[k as int].0);
                    assert(before[p].0 <= x.0);
                }
            }
        }
    }
    proof {
        assert(probes@.subrange(0, probes@.len() as int) =~= probes@);
    }
    out
}

} // verus!
