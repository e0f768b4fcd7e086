//! Splitting a reassembled Zenoh TCP stream into its frames.
//!
//! On a TCP link every Zenoh batch is preceded by its length, written as a
//! little-endian `u16`.
use vstd::prelude::*;
use vstd::slice::slice_subrange;
use vstd::slice::slice_to_vec;

verus! {

/// Number of bytes of the length prefix in front of every frame.
pub const FRAME_SIZE_LEN: usize = 2;

/// The frame length announced by the first two bytes of `s`.
pub open spec fn announced_len(s: Seq<u8>) -> nat
    recommends
        s.len() >= 2,
{
    s[0] as nat + 256 * (s[1] as nat)
}

/// `read_frame` can inspect `s` without reading out of bounds: there is a
/// length prefix, and an announced length that is accepted also fits.
pub open spec fn frame_readable(s: Seq<u8>) -> bool {
    &&& s.len() >= 2
    &&& (announced_len(s) == 0 || announced_len(s) > s.len() || announced_len(s) + 2 <= s.len())
}

/// The frame at the start of `s` and the number of bytes it takes with its
/// prefix; `None` where the announced length is zero or exceeds the stream.
pub open spec fn spec_read_frame(s: Seq<u8>) -> Option<(Seq<u8>, nat)> {
    if s.len() >= 2 && announced_len(s) != 0 && announced_len(s) + 2 <= s.len() {
        Some((s.subrange(2, announced_len(s) + 2int), announced_len(s) + 2))
    } else {
        None
    }
}

/// The frames read one after the other from the start of `s`, up to the end
/// of the stream or the first frame that cannot be read.
pub open spec fn split_frames(s: Seq<u8>) -> Seq<Seq<u8>>
    decreases s.len(),
{
    if s.len() == 0 {
        seq![]
    } else {
        match spec_read_frame(s) {
            Some((f, n)) => seq![f] + split_frames(s.skip(n as int)),
            None => seq![],
        }
    }
}

/// Every read that `split_frames` makes on `s` can be done without reading out
/// of bounds.
pub open spec fn stream_readable(s: Seq<u8>) -> bool
    decreases s.len(),
{
    if s.len() == 0 {
        true
    } else {
        &&& frame_readable(s)
        &&& match spec_read_frame(s) {
            Some((f, n)) => stream_readable(s.skip(n as int)),
            None => true,
        }
    }
}

/// The little-endian length prefix of a frame of `n` bytes.
pub open spec fn length_prefix(n: nat) -> Seq<u8> {
    seq![(n % 256) as u8, ((n / 256) % 256) as u8]
}

/// A stream made of the given frames, each behind its length prefix.
pub open spec fn encode_frames(frames: Seq<Seq<u8>>) -> Seq<u8>
    decreases frames.len(),
{
    if frames.len() == 0 {
        seq![]
    } else {
        length_prefix(frames[0].len()) + frames[0] + encode_frames(frames.drop_first())
    }
}

/// Frames that a length prefix can announce: none is empty or longer than
/// `u16::MAX` bytes.
pub open spec fn framable(frames: Seq<Seq<u8>>) -> bool {
    forall|i: int| 0 <= i < frames.len() ==> 1 <= #[trigger] frames[i].len() <= 65535
}

/// The contents of a list of byte buffers.
pub open spec fn byte_views(v: Seq<Vec<u8>>) -> Seq<Seq<u8>> {
    v.map_values(|b: Vec<u8>| b@)
}

/// Reads the frame at the start of `data`: its payload, and the offset of
/// what follows it.
pub fn read_frame(data: &[u8]) -> (res: Option<(Vec<u8>, usize)>)
    requires
        frame_readable(data@),
    ensures
        match res {
            Some((f, n)) => spec_read_frame(data@) == Some((f@, n as nat)),
            None => spec_read_frame(data@) is None,
        },
{
    let length: usize = data[0] as usize + 256 * (data[1] as usize);
    if length > data.len() || length == 0 {
        return None;
    }
    let payload = slice_subrange(data, FRAME_SIZE_LEN, FRAME_SIZE_LEN + length);
    let buffer = slice_to_vec(payload);
    let next = FRAME_SIZE_LEN + length;
    Some((buffer, next))
}

proof fn lemma_skip_skip(s: Seq<u8>, a: int, b: int)
    requires
        0 <= a,
        0 <= b,
        a + b <= s.len(),
    ensures
        s.skip(a).skip(b) == s.skip(a + b),
{
    assert(s.skip(a).skip(b) =~= s.skip(a + b));
}

/// Splits a reassembled stream into its frames, in order. Reading stops at
/// the end of the data or at the first length prefix that announces an empty
/// frame or more bytes than there are.
pub fn read_messages(data: Vec<u8>) -> (frames: Vec<Vec<u8>>)
    requires
        stream_readable(data@),
    ensures
        byte_views(frames@) == split_frames(data@),
{
    let mut slices: Vec<Vec<u8>> = Vec::new();
    let mut current: usize = 0;
    let mut stopped = false;
    let len = data.len();
    assert(data@.skip(0) =~= data@);
    assert(byte_views(slices@) + split_frames(data@) =~= split_frames(data@));
    while current < len && !stopped
        invariant
            len == data.len(),
            current <= len,
            stream_readable(data@.skip(current as int)),
            stopped ==> split_frames(data@.skip(current as int)) == Seq::<Seq<u8>>::empty(),
            byte_views(slices@) + split_frames(data@.skip(current as int)) == split_frames(data@),
        decreases len - current, if stopped { 0int } else { 1int },
    {
        let rest = slice_subrange(data.as_slice(), current, len);
        assert(rest@ == data@.skip(current as int));
        match read_frame(rest) {
            Some((slice, next)) => {
                let ghost old_vecs = slices@;
                let ghost old_slices = byte_views(slices@);
                slices.push(slice);
                proof {
                    lemma_skip_skip(data@, current as int, next as int);
                    assert(slices@ == old_vecs.push(slice));
                    assert(byte_views(slices@) =~= old_slices.push(slice@));
                    assert(split_frames(data@.skip(current as int)) == seq![slice@] + split_frames(
                        data@.skip(current + next),
                    ));
                    assert(byte_views(slices@) + split_frames(data@.skip(current + next))
                        =~= old_slices + split_frames(data@.skip(current as int)));
                }
                current = current + next;
            },
            None => {
                stopped = true;
            },
        }
    }
    proof {
        assert(byte_views(slices@) + Seq::<Seq<u8>>::empty() =~= byte_views(slices@));
    }
    slices
}

/// Whether `read_messages` can read all of `data` without reading out of
/// bounds: whether every frame that it reads is whole.
pub fn stream_is_readable(data: &[u8]) -> (b: bool)
    ensures
        b == stream_readable(data@),
{
    let len = data.len();
    let mut current: usize = 0;
    assert(data@.skip(0) =~= data@);
    while current < len
        invariant
            len == data@.len(),
            current <= len,
            stream_readable(data@) == stream_readable(data@.skip(current as int)),
        decreases len - current,
    {
        let ghost rest = data@.skip(current as int);
        if len - current < 2 {
            return false;
        }
        let length: usize = data[current] as usize + 256 * (data[current + 1] as usize);
        assert(announced_len(rest) == length);
        if length == 0 || length > len - current {
            return true;
        }
        if length + 2 > len - current {
            return false;
        }
        proof {
            lemma_skip_skip(data@, current as int, length + 2);
        }
        current = current + length + 2;
    }
    assert(data@.skip(current as int).len() == 0);
    true
}

/// Splits a reassembled stream into its frames as `read_messages` does;
/// `None` where a frame that it would read is cut short.
pub fn try_read_messages(data: Vec<u8>) -> (res: Option<Vec<Vec<u8>>>)
    ensures
        match res {
            Some(frames) => stream_readable(data@) && byte_views(frames@) == split_frames(data@),
            None => !stream_readable(data@),
        },
{
    if stream_is_readable(data.as_slice()) {
        Some(read_messages(data))
    } else {
        None
    }
}

proof fn lemma_prefix_announces(n: nat)
    requires
        n <= 65535,
    ensures
        length_prefix(n).len() == 2,
        length_prefix(n)[0] as nat + 256 * (length_prefix(n)[1] as nat) == n,
{
}

proof fn lemma_announced_prefix(s: Seq<u8>)
    requires
        s.len() >= 2,
    ensures
        length_prefix(announced_len(s)) == s.take(2),
{
    let n = announced_len(s);
    assert(n % 256 == s[0] as nat);
    assert((n / 256) % 256 == s[1] as nat);
    assert(length_prefix(n) =~= s.take(2));
}

/// Framing is undone by reading: a stream made of frames that a length
/// prefix can announce can be read without going out of bounds, and
/// `read_messages` gives back exactly those frames.
pub proof fn law_read_messages_inverts_framing(frames: Seq<Seq<u8>>)
    requires
        framable(frames),
    ensures
        stream_readable(encode_frames(frames)),
        split_frames(encode_frames(frames)) == frames,
    decreases frames.len(),
{
    if frames.len() > 0 {
        let f = frames[0];
        let rest = frames.drop_first();
        assert(framable(rest)) by {
            assert forall|i: int| 0 <= i < rest.len() implies 1 <= #[trigger] rest[i].len() <= 65535 by {
                assert(rest[i] == frames[i + 1]);
            }
        }
        law_read_messages_inverts_framing(rest);
        let s = encode_frames(frames);
        let l = f.len();
        lemma_prefix_announces(l);
        assert(s[0] == length_prefix(l)[0]);
        assert(s[1] == length_prefix(l)[1]);
        assert(announced_len(s) == l);
        assert(s.subrange(2, l + 2int) =~= f);
        assert(s.skip(l + 2int) =~= encode_frames(rest));
        assert(seq![f] + rest =~= frames);
    } else {
        assert(encode_frames(frames) =~= Seq::<u8>::empty());
    }
}

/// Reading never invents bytes: the frames that `read_messages` finds, each
/// put back behind its length prefix, make up the start of the stream they
/// were read from.
pub proof fn law_frames_rebuild_stream_prefix(s: Seq<u8>)
    ensures
        framable(split_frames(s)),
        encode_frames(split_frames(s)).len() <= s.len(),
        encode_frames(split_frames(s)) == s.take(encode_frames(split_frames(s)).len() as int),
    decreases s.len(),
{
    if s.len() == 0 {
        assert(s.take(0) =~= Seq::<u8>::empty());
    } else {
        match spec_read_frame(s) {
            Some((f, n)) => {
                let rest = s.skip(n as int);
                law_frames_rebuild_stream_prefix(rest);
                let fs = split_frames(s);
                assert(fs == seq![f] + split_frames(rest));
                assert(fs[0] == f);
                assert(fs.drop_first() =~= split_frames(rest));
                lemma_announced_prefix(s);
                let k = encode_frames(split_frames(rest)).len();
                assert(encode_frames(fs) == length_prefix(f.len()) + f + encode_frames(split_frames(rest)));
                assert(k <= rest.len());
                assert(f == s.subrange(2, n as int));
                assert(s.take(n + k as int) =~= s.take(2) + s.subrange(2, n as int) + rest.take(k as int));
                assert(encode_frames(fs) =~= s.take(n + k as int));
                assert forall|i: int| 0 <= i < fs.len() implies 1 <= #[trigger] fs[i].len() <= 65535 by {
                    if i > 0 {
                        assert(fs[i] == split_frames(rest)[i - 1]);
                    }
                }
            },
            None => {
                assert(s.take(0) =~= Seq::<u8>::empty());
            },
        }
    }
}

} // verus!
