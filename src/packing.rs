use vstd::prelude::*;

use crate::announcement::{
    all_sized, entry_hashes, entry_size, RequestTxHashes, TxMetadata, ValidAnnouncementData,
};
use crate::types::TxHash;

verus! {

/// Size-aware packing of the entries from position `i` on, with `acc` bytes already
/// taken: the entries taken, and the hashes left over.
pub open spec fn pack_sized_from(
    s: Seq<(TxHash, TxMetadata)>,
    i: int,
    acc: int,
    limit: int,
    min_headroom: int,
) -> (Seq<(TxHash, TxMetadata)>, Seq<TxHash>)
    decreases s.len() - i,
{
    if i < 0 || i >= s.len() {
        (Seq::empty(), Seq::empty())
    } else {
        let e = s[i];
        let next = acc + entry_size(e);
        if next <= limit {
            if limit - next < min_headroom {
                (seq![e], entry_hashes(s.skip(i + 1)))
            } else {
                let r = pack_sized_from(s, i + 1, next, limit, min_headroom);
                (seq![e] + r.0, r.1)
            }
        } else {
            let r = pack_sized_from(s, i + 1, acc, limit, min_headroom);
            (r.0, seq![e.0] + r.1)
        }
    }
}

/// Size-aware packing: the first entry is always taken; when its size alone reaches
/// `limit` everything else is left over. Otherwise each following entry is taken when
/// it fits in what is left of `limit`, and packing stops once less than
/// `min_headroom` bytes are left after taking one.
pub open spec fn pack_sized(s: Seq<(TxHash, TxMetadata)>, limit: int, min_headroom: int) -> (
    Seq<(TxHash, TxMetadata)>,
    Seq<TxHash>,
) {
    if s.len() == 0 {
        (Seq::empty(), Seq::empty())
    } else if entry_size(s[0]) >= limit {
        (seq![s[0]], entry_hashes(s.skip(1)))
    } else {
        let r = pack_sized_from(s, 1, entry_size(s[0]), limit, min_headroom);
        (seq![s[0]] + r.0, r.1)
    }
}

/// The sum of the announced sizes of the entries of `s`.
pub open spec fn total_size(s: Seq<(TxHash, TxMetadata)>) -> int
    decreases s.len(),
{
    if s.len() == 0 {
        0
    } else {
        entry_size(s[0]) + total_size(s.drop_first())
    }
}

proof fn lemma_pack_sized_from_within(
    s: Seq<(TxHash, TxMetadata)>,
    i: int,
    acc: int,
    limit: int,
    min_headroom: int,
)
    requires
        acc <= limit,
        all_sized(s),
    ensures
        acc + total_size(pack_sized_from(s, i, acc, limit, min_headroom).0) <= limit,
    decreases s.len() - i,
{
    if 0 <= i < s.len() {
        let e = s[i];
        let next = acc + entry_size(e);
        if next <= limit {
            assert((seq![e]).drop_first() =~= Seq::<(TxHash, TxMetadata)>::empty());
            assert(total_size(Seq::<(TxHash, TxMetadata)>::empty()) == 0);
            assert(total_size(seq![e]) == entry_size(e));
            if limit - next >= min_headroom {
                lemma_pack_sized_from_within(s, i + 1, next, limit, min_headroom);
                let r = pack_sized_from(s, i + 1, next, limit, min_headroom);
                assert((seq![e] + r.0).drop_first() =~= r.0);
            }
        } else {
            lemma_pack_sized_from_within(s, i + 1, acc, limit, min_headroom);
        }
    }
}

/// What size-aware packing takes stays within the limit whenever the first entry's
/// size is below it; when the first entry alone reaches the limit, it is taken alone.
pub proof fn lemma_pack_sized_within_limit(
    s: Seq<(TxHash, TxMetadata)>,
    limit: int,
    min_headroom: int,
)
    requires
        all_sized(s),
        s.len() > 0,
    ensures
        entry_size(s[0]) < limit ==> total_size(pack_sized(s, limit, min_headroom).0) <= limit,
        entry_size(s[0]) >= limit ==> pack_sized(s, limit, min_headroom).0 == seq![s[0]],
{
    if entry_size(s[0]) < limit {
        lemma_pack_sized_from_within(s, 1, entry_size(s[0]), limit, min_headroom);
        let r = pack_sized_from(s, 1, entry_size(s[0]), limit, min_headroom);
        assert((seq![s[0]] + r.0).drop_first() =~= r.0);
    }
}

fn push_remaining_hashes(
    data: &ValidAnnouncementData,
    from: usize,
    out: &mut RequestTxHashes,
)
    requires
        from <= data@.len(),
    ensures
        final(out)@ == old(out)@ + entry_hashes(data@.skip(from as int)),
{
    let mut i = from;
    while i < data.len()
        invariant
            from <= i <= data@.len(),
            out@ == old(out)@ + entry_hashes(data@.subrange(from as int, i as int)),
        decreases data@.len() - i,
    {
        proof {
            assert(entry_hashes(data@.subrange(from as int, i + 1)) =~= entry_hashes(
                data@.subrange(from as int, i as int),
            ).push(data@[i as int].0));
        }
        out.push(data.get(i).0);
        i += 1;
    }
    proof {
        assert(data@.subrange(from as int, i as int) =~= data@.skip(from as int));
    }
}

/// Packs hashes of an announcement that carries sizes into `hashes_to_request`, within
/// the soft response-size limit `limit`, and returns the hashes left over (see
/// `pack_sized`).
pub fn pack_sized_hashes(
    hashes_to_request: &mut RequestTxHashes,
    announcement: &ValidAnnouncementData,
    limit: usize,
    min_headroom: usize,
) -> (surplus: RequestTxHashes)
    requires
        all_sized(announcement@),
    ensures
        final(hashes_to_request)@ == old(hashes_to_request)@ + entry_hashes(
            pack_sized(announcement@, limit as int, min_headroom as int).0,
        ),
        surplus@ == pack_sized(announcement@, limit as int, min_headroom as int).1,
        announcement@.len() > 0 && entry_size(announcement@[0]) < limit ==> total_size(
            pack_sized(announcement@, limit as int, min_headroom as int).0,
        ) <= limit,
        announcement@.len() > 0 && entry_size(announcement@[0]) >= limit ==> entry_hashes(
            pack_sized(announcement@, limit as int, min_headroom as int).0,
        ) == seq![announcement@[0].0],
{
    let ghost s = announcement@;
    let ghost lim = limit as int;
    let ghost mh = min_headroom as int;
    let mut surplus = RequestTxHashes::with_capacity(announcement.len());
    if announcement.len() == 0 {
        return surplus;
    }
    proof {
        lemma_pack_sized_within_limit(s, lim, mh);
        assert(entry_hashes(seq![s[0]]) =~= seq![s[0].0]);
    }
    let (first, first_meta) = announcement.get(0);
    assert(all_sized(s) && s[0].1.is_some());
    let first_size = first_meta.unwrap().1;
    hashes_to_request.push(first);
    if first_size >= limit {
        push_remaining_hashes(announcement, 1, &mut surplus);
        return surplus;
    }
    let mut acc: usize = first_size;
    let ghost mut taken: Seq<(TxHash, TxMetadata)> = seq![s[0]];
    let mut i: usize = 1;
    while i < announcement.len()
        invariant
            1 <= i <= s.len(),
            s == announcement@,
            lim == limit as int,
            mh == min_headroom as int,
            all_sized(s),
            acc <= limit,
            hashes_to_request@ == old(hashes_to_request)@ + entry_hashes(taken),
            pack_sized(s, lim, mh) == (
                taken + pack_sized_from(s, i as int, acc as int, lim, mh).0,
                surplus@ + pack_sized_from(s, i as int, acc as int, lim, mh).1,
            ),
        decreases s.len() - i,
    {
        let (hash, meta) = announcement.get(i);
        assert(s[i as int].1.is_some());
        let size = meta.unwrap().1;
        let ghost e = s[i as int];
        let ghost r_now = pack_sized_from(s, i as int, acc as int, lim, mh);
        let ghost taken_before = taken;
        let ghost surplus_before = surplus@;
        let ghost rest_next = pack_sized_from(s, i + 1, acc + size, lim, mh);
        let ghost rest_skip = pack_sized_from(s, i + 1, acc as int, lim, mh);
        assert(entry_size(e) == size as int);
        if size <= limit - acc {
            acc = acc + size;
            hashes_to_request.push(hash);
            proof {
                assert(entry_hashes(taken.push(e)) =~= entry_hashes(taken).push(e.0));
                taken = taken.push(e);
            }
            if limit - acc < min_headroom {
                push_remaining_hashes(announcement, i + 1, &mut surplus);
                proof {
                    assert(r_now.0 == seq![e]);
                    assert(r_now.1 == entry_hashes(s.skip(i + 1)));
                    assert(taken_before + seq![e] =~= taken);
                    lemma_pack_sized_within_limit(s, lim, mh);
                }
                return surplus;
            }
            proof {
                assert(r_now.0 == seq![e] + rest_next.0);
                assert(r_now.1 == rest_next.1);
                assert(taken_before + (seq![e] + rest_next.0) =~= taken + rest_next.0);
            }
        } else {
            surplus.push(hash);
            proof {
                assert(r_now.0 == rest_skip.0);
                assert(r_now.1 == seq![e.0] + rest_skip.1);
                assert(surplus_before + (seq![e.0] + rest_skip.1) =~= surplus@ + rest_skip.1);
            }
        }
        i += 1;
    }
    proof {
        assert(taken + Seq::<(TxHash, TxMetadata)>::empty() =~= taken);
        assert(surplus@ + Seq::<TxHash>::empty() =~= surplus@);
    }
    surplus
}

/// Count-only packing: the first `count_limit` hashes go to the request, the rest are
/// left over.
pub open spec fn pack_counted(hashes: Seq<TxHash>, count_limit: int) -> (Seq<TxHash>, Seq<TxHash>) {
    if hashes.len() <= count_limit {
        (hashes, Seq::empty())
    } else {
        (hashes.take(count_limit), hashes.skip(count_limit))
    }
}

/// Replaces `hashes_to_request` with the first `count_limit` announced hashes and
/// returns the rest.
pub fn pack_counted_hashes(
    hashes_to_request: &mut RequestTxHashes,
    announcement: ValidAnnouncementData,
    count_limit: usize,
) -> (surplus: RequestTxHashes)
    ensures
        final(hashes_to_request)@ == pack_counted(entry_hashes(announcement@), count_limit as int).0,
        surplus@ == pack_counted(entry_hashes(announcement@), count_limit as int).1,
        final(hashes_to_request)@.len() <= count_limit,
        final(hashes_to_request)@ + surplus@ == entry_hashes(announcement@),
{
    let (mut request_hashes, _version) = announcement.into_request_hashes();
    if request_hashes.len() <= count_limit {
        *hashes_to_request = request_hashes;
        proof {
            assert(hashes_to_request@ + Seq::<TxHash>::empty() =~= hashes_to_request@);
        }
        RequestTxHashes::empty()
    } else {
        let surplus = request_hashes.split_off(count_limit);
        *hashes_to_request = request_hashes;
        proof {
            assert(hashes_to_request@ + surplus@ =~= entry_hashes(announcement@));
        }
        surplus
    }
}

} // verus!
