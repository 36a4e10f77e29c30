//! Several requests in one message, and their responses in one frame.

use crate::bytes::{
    be32, copy_range, le32, le32_at, put_all, put_u32_be, put_u32_le, put_zeros, read_u32_le, zeros,
};
use crate::smb2::{is_smb1_negotiate, smb1_negotiate, SMB2_HEADER_SIZE};
use vstd::prelude::*;
use vstd::slice::slice_subrange;

verus! {

// ── Taking a message apart ──────────────────────────────────────────

/// The requests in a message from `at` on, each by where it starts and ends.
/// A request says how far behind it the next one starts, and the last one says
/// 0.
pub open spec fn requests(msg: Seq<u8>, at: int) -> Seq<(int, int)>
    decreases
            (if at < msg.len() {
                msg.len() - at
            } else {
                0
            }),
{
    if at < 0 || msg.len() - at < SMB2_HEADER_SIZE {
        Seq::empty()
    } else {
        let next = le32_at(msg, at + 20) as int;
        if next == 0 {
            seq![(at, msg.len() as int)]
        } else {
            seq![(at, at + next)] + requests(msg, at + next)
        }
    }
}

/// A request that lies within its message and reaches as far as its command.
pub open spec fn is_whole(msg: Seq<u8>, r: (int, int)) -> bool {
    r.1 <= msg.len() && r.1 - r.0 >= 14
}

/// The requests up to the first that is not whole.
pub open spec fn leading(msg: Seq<u8>, found: Seq<(int, int)>) -> Seq<(int, int)>
    decreases found.len(),
{
    if found.len() == 0 || !is_whole(msg, found[0]) {
        Seq::empty()
    } else {
        seq![found[0]] + leading(msg, found.skip(1))
    }
}

proof fn lemma_leading(msg: Seq<u8>, found: Seq<(int, int)>, n: int)
    requires
        0 <= n < found.len(),
        forall|i: int| 0 <= i < n ==> is_whole(msg, #[trigger] found[i]),
        !is_whole(msg, found[n]),
    ensures
        leading(msg, found) == found.take(n),
    decreases n,
{
    if n > 0 {
        assert(is_whole(msg, found[0]));
        assert forall|i: int| 0 <= i < n - 1 implies is_whole(
            msg,
            #[trigger] found.skip(1)[i],
        ) by {
            assert(found.skip(1)[i] == found[i + 1]);
        }
        lemma_leading(msg, found.skip(1), n - 1);
        assert(found.take(n) =~= seq![found[0]] + found.skip(1).take(n - 1));
    } else {
        assert(found.take(0) =~= Seq::empty());
    }
}

/// What a message from a client is.
pub enum Incoming {
    /// The start of an SMB1 client, which is asked to go on in SMB2.
    Upgrade,
    /// One request, or none: the message is handled as it is.
    Single,
    /// Several requests, each by where it starts and ends.
    Several(Vec<(usize, usize)>),
    /// Several requests, one of which does not lie within the message. Those
    /// before it are given; nothing can be done from there on.
    Broken(Vec<(usize, usize)>),
}

/// An [`Incoming`] in terms of sequences.
pub enum IncomingView {
    Upgrade,
    Single,
    Several(Seq<(int, int)>),
    Broken(Seq<(int, int)>),
}

/// Places in terms of numbers.
pub open spec fn places(list: Seq<(usize, usize)>) -> Seq<(int, int)> {
    Seq::new(list.len(), |i: int| (list[i].0 as int, list[i].1 as int))
}

impl View for Incoming {
    type V = IncomingView;

    open spec fn view(&self) -> IncomingView {
        match self {
            Incoming::Upgrade => IncomingView::Upgrade,
            Incoming::Single => IncomingView::Single,
            Incoming::Several(list) => IncomingView::Several(places(list@)),
            Incoming::Broken(list) => IncomingView::Broken(places(list@)),
        }
    }
}

/// What a message from a client is.
pub open spec fn incoming(msg: Seq<u8>) -> IncomingView {
    let found = requests(msg, 0);
    if smb1_negotiate(msg) {
        IncomingView::Upgrade
    } else if found.len() <= 1 {
        IncomingView::Single
    } else if forall|i: int| 0 <= i < found.len() ==> is_whole(msg, #[trigger] found[i]) {
        IncomingView::Several(found)
    } else {
        IncomingView::Broken(leading(msg, found))
    }
}

/// Says what a message from a client is.
pub fn classify(msg: &[u8]) -> (r: Incoming)
    ensures
        r@ == incoming(msg@),
{
    if is_smb1_negotiate(msg) {
        return Incoming::Upgrade;
    }
    let ghost all = requests(msg@, 0);
    let mut list: Vec<(usize, usize)> = Vec::new();
    // How many requests are whole up to the first that is not.
    let mut kept: usize = 0;
    let mut at: usize = 0;
    assert(places(list@) + requests(msg@, 0) =~= all);
    loop
        invariant_except_break
            places(list@) + requests(msg@, at as int) == all,
        invariant
            at <= msg@.len(),
            !smb1_negotiate(msg@),
            all == requests(msg@, 0),
            kept <= list@.len(),
            forall|i: int| 0 <= i < kept ==> is_whole(msg@, #[trigger] places(list@)[i]),
            kept < list@.len() ==> !is_whole(msg@, places(list@)[kept as int]),
        ensures
            places(list@) == all,
        decreases msg@.len() - at,
    {
        if msg.len() - at < SMB2_HEADER_SIZE {
            assert(places(list@) =~= all);
            break;
        }
        let ghost before = places(list@);
        let next = read_u32_le(msg, at + 20);
        let end: u128 = if next == 0 {
            msg.len() as u128
        } else {
            at as u128 + next as u128
        };
        if end > msg.len() as u128 {
            let ghost last = (at as int, end as int);
            assert(requests(msg@, end as int) =~= Seq::empty());
            assert(all =~= before.push(last));
            assert(!is_whole(msg@, all[before.len() as int]));
            assert(all.len() == list@.len() + 1);
            if list.len() == 0 {
                return Incoming::Single;
            }
            proof {
                assert forall|i: int| 0 <= i < kept implies is_whole(msg@, #[trigger] all[i]) by {
                    assert(all[i] == places(list@)[i]);
                }
                assert(all[kept as int] == if kept < list@.len() {
                    places(list@)[kept as int]
                } else {
                    last
                });
                lemma_leading(msg@, all, kept as int);
            }
            list.truncate(kept);
            assert(places(list@) =~= all.take(kept as int));
            return Incoming::Broken(list);
        }
        let goes_on = kept == list.len() && end as usize - at >= 14;
        list.push((at, end as usize));
        if goes_on {
            kept = list.len();
        }
        assert(places(list@) =~= before.push((at as int, end as int)));
        assert forall|i: int| 0 <= i < before.len() implies #[trigger] places(list@)[i]
            == before[i] by {}
        if next == 0 {
            assert(places(list@) =~= all);
            break;
        }
        assert(places(list@) + requests(msg@, end as int) =~= all);
        at = end as usize;
    }
    if list.len() <= 1 {
        Incoming::Single
    } else if kept == list.len() {
        Incoming::Several(list)
    } else {
        proof {
            lemma_leading(msg@, all, kept as int);
        }
        list.truncate(kept);
        assert(places(list@) =~= all.take(kept as int));
        Incoming::Broken(list)
    }
}

// ── Putting responses together ──────────────────────────────────────

/// What is sent of the first `n` responses: each without the length in front of
/// it; those that hold nothing are left out.
pub open spec fn bodies(responses: Seq<Seq<u8>>, n: nat) -> Seq<Seq<u8>>
    decreases n,
{
    if n == 0 {
        Seq::empty()
    } else {
        let b = bodies(responses, (n - 1) as nat);
        if responses[n - 1].len() > 4 {
            b.push(responses[n - 1].skip(4))
        } else {
            b
        }
    }
}

/// A response up to where another one can start.
pub open spec fn padded(body: Seq<u8>) -> Seq<u8> {
    body + zeros(((8 - body.len() % 8) % 8) as nat)
}

/// A response that another one follows: it says where that one starts.
pub open spec fn linked(body: Seq<u8>) -> Seq<u8> {
    let p = padded(body);
    p.take(20) + le32(p.len() as u32) + p.skip(24)
}

/// The first `n` responses, each of which another one follows.
pub open spec fn chain(parts: Seq<Seq<u8>>, n: nat) -> Seq<u8>
    decreases n,
{
    if n == 0 {
        Seq::empty()
    } else {
        chain(parts, (n - 1) as nat) + linked(parts[n - 1])
    }
}

/// Responses as one message.
pub open spec fn combined(parts: Seq<Seq<u8>>) -> Seq<u8> {
    if parts.len() == 0 {
        Seq::empty()
    } else {
        chain(parts, (parts.len() - 1) as nat) + parts.last()
    }
}

/// Responses as one frame.
pub open spec fn framed(parts: Seq<Seq<u8>>) -> Seq<u8> {
    be32(combined(parts).len() as u32) + combined(parts)
}

/// Byte strings in terms of sequences.
pub open spec fn byte_strings(list: Seq<Vec<u8>>) -> Seq<Seq<u8>> {
    Seq::new(list.len(), |i: int| list[i]@)
}

fn put_linked(out: &mut Vec<u8>, body: &[u8])
    requires
        body@.len() > 16,
    ensures
        final(out)@ == old(out)@ + linked(body@),
{
    let mut p: Vec<u8> = Vec::new();
    put_all(&mut p, body);
    put_zeros(&mut p, (8 - body.len() % 8) % 8);
    assert(p@ =~= padded(body@));
    put_all(out, slice_subrange(&p, 0, 20));
    put_u32_le(
        out,
        #[verifier::truncate]
        (p.len() as u32),
    );
    put_all(out, slice_subrange(&p, 24, p.len()));
    assert(out@ =~= old(out)@ + linked(body@));
}

fn take_bodies(responses: &Vec<Vec<u8>>) -> (r: Vec<Vec<u8>>)
    ensures
        byte_strings(r@) == bodies(byte_strings(responses@), responses@.len()),
{
    let ghost all = byte_strings(responses@);
    let mut out: Vec<Vec<u8>> = Vec::new();
    let mut i: usize = 0;
    assert(byte_strings(out@) =~= bodies(all, 0));
    while i < responses.len()
        invariant
            i <= responses@.len(),
            all == byte_strings(responses@),
            byte_strings(out@) == bodies(all, i as nat),
        decreases responses@.len() - i,
    {
        let ghost before = byte_strings(out@);
        if responses[i].len() > 4 {
            let b = copy_range(&responses[i], 4, responses[i].len());
            assert(b@ =~= all[i as int].skip(4));
            out.push(b);
            assert(byte_strings(out@) =~= before.push(all[i as int].skip(4)));
        }
        i += 1;
    }
    out
}

/// Puts the responses to the requests of one message into one frame.
pub fn combine(responses: &Vec<Vec<u8>>) -> (out: Vec<u8>)
    requires
        ({
            let parts = bodies(byte_strings(responses@), responses@.len());
            forall|i: int| 0 <= i < parts.len() - 1 ==> (#[trigger] parts[i]).len() > 16
        }),
    ensures
        out@ == framed(bodies(byte_strings(responses@), responses@.len())),
{
    let list = take_bodies(responses);
    let ghost parts = byte_strings(list@);
    let mut body: Vec<u8> = Vec::new();
    let mut i: usize = 0;
    assert(body@ =~= chain(parts, 0));
    while list.len() > 0 && i < list.len() - 1
        invariant
            i <= list@.len(),
            list@.len() > 0 ==> i < list@.len(),
            parts == byte_strings(list@),
            forall|k: int| 0 <= k < parts.len() - 1 ==> (#[trigger] parts[k]).len() > 16,
            body@ == chain(parts, i as nat),
        decreases list@.len() - i,
    {
        assert(parts[i as int].len() > 16);
        put_linked(&mut body, &list[i]);
        i += 1;
    }
    if list.len() > 0 {
        put_all(&mut body, &list[i]);
        assert(body@ =~= combined(parts));
    } else {
        assert(body@ =~= combined(parts));
    }
    let mut out: Vec<u8> = Vec::new();
    put_u32_be(
        &mut out,
        #[verifier::truncate]
        (body.len() as u32),
    );
    put_all(&mut out, &body);
    assert(out@ =~= framed(parts));
    out
}

// ── What a client finds ─────────────────────────────────────────────

/// Responses that a client can tell apart: each has a header and a length that
/// fits in its link, and the last one says that none follows it.
pub open spec fn can_be_told_apart(parts: Seq<Seq<u8>>) -> bool {
    &&& parts.len() > 0
    &&& forall|i: int|
        0 <= i < parts.len() ==> SMB2_HEADER_SIZE <= (#[trigger] parts[i]).len() <= u32::MAX - 7
    &&& le32_at(parts.last(), 20) == 0
}

/// Where the response `i` ends in the message.
pub open spec fn part_end(parts: Seq<Seq<u8>>, i: int) -> int {
    if i == parts.len() - 1 {
        combined(parts).len() as int
    } else {
        chain(parts, (i + 1) as nat).len() as int
    }
}

proof fn lemma_linked(body: Seq<u8>)
    requires
        SMB2_HEADER_SIZE <= body.len() <= u32::MAX - 7,
    ensures
        linked(body).len() == padded(body).len(),
        linked(body).len() % 8 == 0,
        linked(body).len() >= SMB2_HEADER_SIZE,
        le32_at(linked(body), 20) == linked(body).len(),
{
    let p = padded(body);
    let l = linked(body);
    let n = p.len() as u32;
    crate::bytes::law_le32_round_trip(n);
    assert(l[20] == le32(n)[0] && l[21] == le32(n)[1] && l[22] == le32(n)[2] && l[23] == le32(
        n,
    )[3]);
}

proof fn lemma_chain(parts: Seq<Seq<u8>>, i: nat, n: nat)
    requires
        i <= n <= parts.len(),
    ensures
        chain(parts, i).len() <= chain(parts, n).len(),
        chain(parts, n).take(chain(parts, i).len() as int) == chain(parts, i),
    decreases n,
{
    if i < n {
        lemma_chain(parts, i, (n - 1) as nat);
        let a = chain(parts, i);
        let b = chain(parts, (n - 1) as nat);
        assert(chain(parts, n).take(a.len() as int) =~= b.take(a.len() as int));
    } else {
        assert(chain(parts, n).take(chain(parts, i).len() as int) =~= chain(parts, i));
    }
}

proof fn lemma_requests_from(parts: Seq<Seq<u8>>, i: nat)
    requires
        can_be_told_apart(parts),
        i < parts.len(),
    ensures
        requests(combined(parts), chain(parts, i).len() as int) == Seq::new(
            (parts.len() - i) as nat,
            |k: int| (chain(parts, (i + k) as nat).len() as int, part_end(parts, i + k)),
        ),
    decreases parts.len() - i,
{
    let n = parts.len();
    let msg = combined(parts);
    let at = chain(parts, i).len() as int;
    let want = Seq::new(
        (n - i) as nat,
        |k: int| (chain(parts, (i + k) as nat).len() as int, part_end(parts, i + k)),
    );
    if i == n - 1 {
        let last = parts.last();
        assert(msg == chain(parts, i) + last);
        assert(le32_at(msg, at + 20) == le32_at(last, 20)) by {
            assert(msg[at + 20] == last[20] && msg[at + 21] == last[21] && msg[at + 22] == last[22]
                && msg[at + 23] == last[23]);
        }
        assert(requests(msg, at) =~= want);
    } else {
        let body = parts[i as int];
        let l = linked(body);
        lemma_linked(body);
        lemma_chain(parts, i + 1, (n - 1) as nat);
        let next = chain(parts, i + 1);
        assert(next == chain(parts, i) + l);
        let most = chain(parts, (n - 1) as nat);
        assert(msg == most + parts.last());
        assert forall|k: int| 0 <= k < l.len() implies msg[at + k] == l[k] by {
            assert(most.take(next.len() as int)[at + k] == next[at + k]);
        }
        assert(le32_at(msg, at + 20) == le32_at(l, 20));
        assert(msg.len() - at >= SMB2_HEADER_SIZE);
        lemma_requests_from(parts, i + 1);
        let rest = requests(msg, at + l.len());
        assert(requests(msg, at) =~= seq![(at, at + l.len() as int)] + rest);
        assert forall|k: int| 0 <= k < want.len() implies requests(msg, at)[k] == want[k] by {
            if k > 0 {
                assert(rest[k - 1] == (
                    chain(parts, ((i + 1) + (k - 1)) as nat).len() as int,
                    part_end(parts, (i + 1) + (k - 1)),
                ));
            }
        }
        assert(requests(msg, at) =~= want);
    }
}

/// A client that takes the message apart finds every response, in order, each
/// where the one before it says: the first starts at 0.
pub proof fn law_client_finds_every_response(parts: Seq<Seq<u8>>)
    requires
        can_be_told_apart(parts),
    ensures
        requests(combined(parts), 0).len() == parts.len(),
        forall|i: int|
            0 <= i < parts.len() ==> #[trigger] requests(combined(parts), 0)[i] == (
                chain(parts, i as nat).len() as int,
                part_end(parts, i),
            ),
{
    lemma_requests_from(parts, 0);
    assert(chain(parts, 0).len() == 0);
}

proof fn lemma_follow(msg: Seq<u8>, at: int, i: int)
    requires
        0 <= at,
        0 <= i < requests(msg, at).len(),
    ensures
        ({
            let found = requests(msg, at);
            let link = le32_at(msg, found[i].0 + 20) as int;
            &&& found[0].0 == at
            &&& at <= found[i].0
            &&& found[i].0 + 64 <= msg.len()
            &&& found[i].1 == if link == 0 {
                msg.len() as int
            } else {
                found[i].0 + link
            }
            &&& i + 1 < found.len() ==> link != 0 && found[i + 1].0 == found[i].1
            &&& i + 1 == found.len() ==> link == 0 || found[i].1 + 64 > msg.len()
        }),
    decreases i,
{
    let next = le32_at(msg, at + 20) as int;
    if next != 0 {
        let rest = requests(msg, at + next);
        assert(requests(msg, at) =~= seq![(at, at + next)] + rest);
        if rest.len() > 0 {
            assert(rest[0].0 == at + next);
        }
        if i > 0 {
            lemma_follow(msg, at + next, i - 1);
            assert(requests(msg, at)[i] == rest[i - 1]);
        }
    }
}

/// The requests of a message follow one another from its start on: each reaches as
/// far as it says, the next one starts there, and the one that says nothing reaches
/// to the end.
pub proof fn law_requests_follow_one_another(msg: Seq<u8>, i: int)
    requires
        0 <= i < requests(msg, 0).len(),
    ensures
        ({
            let found = requests(msg, 0);
            let link = le32_at(msg, found[i].0 + 20) as int;
            &&& found[0].0 == 0
            &&& found[i].0 + 64 <= msg.len()
            &&& found[i].1 == if link == 0 {
                msg.len() as int
            } else {
                found[i].0 + link
            }
            &&& i + 1 < found.len() ==> link != 0 && found[i + 1].0 == found[i].1
            &&& i + 1 == found.len() ==> link == 0 || found[i].1 + 64 > msg.len()
        }),
{
    lemma_follow(msg, 0, i);
}

/// The responses keep their bytes in the message that carries them all. Only the
/// four bytes that say where the next one starts are set anew.
pub proof fn law_responses_keep_their_bytes(parts: Seq<Seq<u8>>, i: int, k: int)
    requires
        0 <= i < parts.len(),
        0 <= k < parts[i].len(),
        parts[i].len() >= SMB2_HEADER_SIZE,
        !(20 <= k < 24) || i == parts.len() - 1,
    ensures
        combined(parts)[chain(parts, i as nat).len() + k] == parts[i][k],
{
    let n = parts.len();
    let msg = combined(parts);
    let at = chain(parts, i as nat).len() as int;
    if i == n - 1 {
        assert(msg == chain(parts, i as nat) + parts.last());
    } else {
        let l = linked(parts[i]);
        let p = padded(parts[i]);
        assert(l.len() == p.len());
        assert(l[k] == p[k]);
        assert(p[k] == parts[i][k]);
        lemma_chain(parts, (i + 1) as nat, (n - 1) as nat);
        let next = chain(parts, (i + 1) as nat);
        assert(next == chain(parts, i as nat) + l);
        let most = chain(parts, (n - 1) as nat);
        assert(msg == most + parts.last());
        assert(most.take(next.len() as int)[at + k] == next[at + k]);
    }
}

/// The frame announces the length of what it carries, which is the responses
/// without the lengths that stood in front of them, in their order.
pub proof fn law_frames_carry_the_responses(responses: Seq<Seq<u8>>, i: int)
    requires
        0 <= i < responses.len(),
        forall|k: int| 0 <= k < responses.len() ==> (#[trigger] responses[k]).len() > 4,
    ensures
        ({
            let parts = bodies(responses, responses.len());
            let frame = framed(parts);
            &&& parts.len() == responses.len()
            &&& parts[i] == responses[i].skip(4)
            &&& frame.skip(4) == combined(parts)
            &&& frame.len() <= u32::MAX ==> crate::bytes::be32_at(frame, 0) == frame.len() - 4
        }),
{
    let parts = bodies(responses, responses.len());
    lemma_bodies(responses, responses.len(), i);
    let frame = framed(parts);
    let all = combined(parts);
    assert(frame.skip(4) =~= all);
    assert(frame.subrange(0, 4) =~= be32(all.len() as u32));
    crate::bytes::lemma_be32_in(frame, 0, all.len() as u32);
}

proof fn lemma_bodies(responses: Seq<Seq<u8>>, n: nat, i: int)
    requires
        n <= responses.len(),
        forall|k: int| 0 <= k < responses.len() ==> (#[trigger] responses[k]).len() > 4,
    ensures
        bodies(responses, n).len() == n,
        0 <= i < n ==> bodies(responses, n)[i] == responses[i].skip(4),
    decreases n,
{
    if n > 0 {
        lemma_bodies(responses, (n - 1) as nat, i);
        assert(responses[n - 1].len() > 4);
    }
}

} // verus!
