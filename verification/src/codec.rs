//! The byte format of control messages: writing one message, and the
//! bounded parser that walks a control buffer. Header fields stand where the
//! platform's [`CmsgLayout`] puts them.
//!
//! The parser only reads bytes. It never takes ownership of anything: the
//! descriptor numbers it finds are plain integers.
use vstd::prelude::*;

use crate::bytes::{
    i32_from_ne_at, i32_to_ne, spec_i32_from_ne_bytes, spec_i32_to_ne_bytes,
    spec_u32_from_ne_bytes, spec_u32_to_ne_bytes, spec_usize_from_ne_bytes,
    spec_usize_to_ne_bytes, u32_from_ne_at, u32_to_ne, usize_from_ne_at, usize_to_ne, usize_width,
};
use crate::layout::{
    align_up, cmsg_space, lemma_align_up, lemma_space_for, space_fits, space_for, CmsgLayout,
};

verus! {

/// One control message as it stands in the bytes.
pub struct WireMessage {
    pub level: i32,
    pub kind: i32,
    pub data: Seq<u8>,
}

/// One control message, read out of a control buffer.
pub struct RawMessage {
    pub level: i32,
    pub kind: i32,
    pub data: Vec<u8>,
}

impl View for RawMessage {
    type V = WireMessage;

    open spec fn view(&self) -> WireMessage {
        WireMessage { level: self.level, kind: self.kind, data: self.data@ }
    }
}

/// `n` zero bytes.
pub open spec fn zeros(n: nat) -> Seq<u8> {
    Seq::new(n, |i: int| 0u8)
}

/// The `cmsg_len` field of the header at the start of `b`: a `socklen_t`
/// where the field is four bytes wide, a `size_t` otherwise.
pub open spec fn frame_len_field(b: Seq<u8>, l: CmsgLayout) -> int {
    let lo = l.len_offset as int;
    if l.len_width == 4 {
        spec_u32_from_ne_bytes(b.subrange(lo, lo + 4)) as int
    } else {
        spec_usize_from_ne_bytes(b.subrange(lo, lo + usize_width())) as int
    }
}

/// Whether `b` starts with a whole header whose `cmsg_len` covers the
/// header and stays within `b`.
pub open spec fn header_valid(b: Seq<u8>, l: CmsgLayout) -> bool {
    &&& b.len() >= l.header_size
    &&& l.header_len <= frame_len_field(b, l) <= b.len()
}

/// The message whose header starts `b`.
pub open spec fn frame_message(b: Seq<u8>, l: CmsgLayout) -> WireMessage {
    WireMessage {
        level: spec_i32_from_ne_bytes(b.subrange(l.level_offset as int, l.level_offset + 4)),
        kind: spec_i32_from_ne_bytes(b.subrange(l.kind_offset as int, l.kind_offset + 4)),
        data: b.subrange(l.header_len as int, frame_len_field(b, l)),
    }
}

/// Where the next header starts after the message that starts `b`: the
/// padded size of that message, where it is representable and within `b`.
pub open spec fn next_offset(b: Seq<u8>, l: CmsgLayout) -> Option<nat> {
    let payload = (frame_len_field(b, l) - l.header_len) as nat;
    if space_fits(payload, l) && space_for(payload, l) <= b.len() {
        Some(space_for(payload, l))
    } else {
        None
    }
}

/// The messages that the parser reads from `b`. It stops at the first
/// header that does not fit, and after a message whose padding runs past
/// the end of `b`.
pub open spec fn parse_wire(b: Seq<u8>, l: CmsgLayout) -> Seq<WireMessage>
    decreases b.len(),
{
    if !header_valid(b, l) {
        Seq::empty()
    } else {
        match next_offset(b, l) {
            Some(n) => {
                if 0 < n <= b.len() {
                    seq![frame_message(b, l)] + parse_wire(b.skip(n as int), l)
                } else {
                    seq![frame_message(b, l)]
                }
            },
            None => seq![frame_message(b, l)],
        }
    }
}

/// Whether `b` is a sequence of whole, padded messages that ends exactly at
/// the end of `b`, as a writer lays them out.
pub open spec fn frames(b: Seq<u8>, l: CmsgLayout) -> bool
    decreases b.len(),
{
    if b.len() == 0 {
        true
    } else if !header_valid(b, l) {
        false
    } else {
        match next_offset(b, l) {
            Some(n) => if 0 < n <= b.len() {
                frames(b.skip(n as int), l)
            } else {
                false
            },
            None => false,
        }
    }
}

/// The parser's first step: it reads nothing exactly when `b` does not start
/// with a valid header, and otherwise its first message has the level and
/// type of that header and the bytes from the end of the header up to
/// `cmsg_len` as payload.
pub proof fn lemma_parse_first(b: Seq<u8>, l: CmsgLayout)
    ensures
        (parse_wire(b, l).len() == 0) <==> (b.len() < l.header_size || frame_len_field(b, l)
            < l.header_len || frame_len_field(b, l) > b.len()),
        header_valid(b, l) ==> parse_wire(b, l)[0] == frame_message(b, l),
        header_valid(b, l) ==> parse_wire(b, l)[0].data == b.subrange(
            l.header_len as int,
            frame_len_field(b, l),
        ),
{
}

/// Parsing a sequence of whole messages followed by more bytes reads the
/// messages, then continues with the bytes after them.
pub proof fn lemma_parse_concat(x: Seq<u8>, y: Seq<u8>, l: CmsgLayout)
    requires
        l.wf(),
        frames(x, l),
    ensures
        parse_wire(x + y, l) == parse_wire(x, l) + parse_wire(y, l),
        frames(y, l) ==> frames(x + y, l),
    decreases x.len(),
{
    if x.len() == 0 {
        assert(x + y =~= y);
        assert(parse_wire(x, l) =~= Seq::<WireMessage>::empty());
        assert(parse_wire(x, l) + parse_wire(y, l) =~= parse_wire(y, l));
    } else {
        let xy = x + y;
        let lo = l.len_offset as int;
        assert(xy.subrange(lo, lo + 4) =~= x.subrange(lo, lo + 4));
        if l.len_width != 4 {
            assert(xy.subrange(lo, lo + usize_width()) =~= x.subrange(lo, lo + usize_width()));
        }
        assert(frame_len_field(xy, l) == frame_len_field(x, l));
        assert(header_valid(xy, l));
        let n = next_offset(x, l).unwrap();
        assert(next_offset(xy, l) == Some(n));
        let vo = l.level_offset as int;
        let ko = l.kind_offset as int;
        assert(xy.subrange(vo, vo + 4) =~= x.subrange(vo, vo + 4));
        assert(xy.subrange(ko, ko + 4) =~= x.subrange(ko, ko + 4));
        assert(xy.subrange(l.header_len as int, frame_len_field(x, l)) =~= x.subrange(
            l.header_len as int,
            frame_len_field(x, l),
        ));
        assert(frame_message(xy, l) == frame_message(x, l));
        assert(xy.skip(n as int) =~= x.skip(n as int) + y);
        lemma_parse_concat(x.skip(n as int), y, l);
        assert(parse_wire(xy, l) =~= parse_wire(x, l) + parse_wire(y, l));
    }
}

/// The bytes of `cmsg_len` holding `total`.
pub open spec fn len_bytes(total: int, l: CmsgLayout) -> Seq<u8> {
    if l.len_width == 4 {
        spec_u32_to_ne_bytes(total as u32)
    } else {
        spec_usize_to_ne_bytes(total as usize)
    }
}

/// Whether `cmsg_len` can hold `total`.
pub open spec fn len_fits(total: int, l: CmsgLayout) -> bool {
    if l.len_width == 4 {
        total <= u32::MAX
    } else {
        total <= usize::MAX
    }
}

/// The bytes a writer lays down for message `m`: a zeroed header holding
/// `cmsg_len` (the header and payload length), `cmsg_level` and `cmsg_type`
/// in native byte order at their offsets, the payload, then zero bytes up
/// to the padded size.
pub open spec fn frame_bytes(m: WireMessage, l: CmsgLayout) -> Seq<u8> {
    zeros(l.len_offset as nat) + len_bytes(l.header_len + m.data.len(), l) + zeros(
        (l.level_offset - l.len_offset - l.len_width) as nat,
    ) + spec_i32_to_ne_bytes(m.level) + zeros((l.kind_offset - l.level_offset - 4) as nat)
        + spec_i32_to_ne_bytes(m.kind) + zeros((l.header_len - l.kind_offset - 4) as nat) + m.data
        + zeros((align_up(m.data.len(), l.align as nat) - m.data.len()) as nat)
}

/// `f` is one whole message `m` as the parser reads it.
pub open spec fn is_frame_of(f: Seq<u8>, m: WireMessage, l: CmsgLayout) -> bool {
    &&& frames(f, l)
    &&& parse_wire(f, l) == seq![m]
    &&& f.len() == space_for(m.data.len(), l)
}

/// Appends `src` to `dst`.
fn append_bytes(dst: &mut Vec<u8>, src: Vec<u8>)
    ensures
        final(dst)@ == old(dst)@ + src@,
{
    let mut src = src;
    dst.append(&mut src);
}

/// Appends `n` zero bytes to `dst`.
fn push_zeros(dst: &mut Vec<u8>, n: usize)
    ensures
        final(dst)@ == old(dst)@ + zeros(n as nat),
{
    let mut i: usize = 0;
    while i < n
        invariant
            i <= n,
            dst@ == old(dst)@ + zeros(i as nat),
        decreases n - i,
    {
        dst.push(0u8);
        i = i + 1;
        assert(dst@ =~= old(dst)@ + zeros(i as nat));
    }
}

/// Writes one message: a zeroed header with `cmsg_len`, `cmsg_level` and
/// `cmsg_type` at their offsets, the payload, and zero padding up to
/// `CMSG_SPACE(payload.len())`.
pub fn encode_frame(level: i32, kind: i32, payload: &Vec<u8>, l: CmsgLayout) -> (f: Vec<u8>)
    requires
        l.wf(),
        space_fits(payload@.len() as nat, l),
        len_fits(l.header_len + payload@.len(), l),
    ensures
        f@ == frame_bytes(WireMessage { level, kind, data: payload@ }, l),
        is_frame_of(f@, WireMessage { level, kind, data: payload@ }, l),
{
    let p = payload.len();
    let ghost m = WireMessage { level, kind, data: payload@ };
    proof {
        lemma_align_up(p as nat, l.align as nat);
        lemma_space_for(p as nat, l);
    }
    let space = match cmsg_space(p, l) {
        Some(s) => s,
        None => {
            assert(false);
            0
        },
    };
    let total = l.header_len + p;
    let len_field = if l.len_width == 4 {
        u32_to_ne(total as u32)
    } else {
        usize_to_ne(total)
    };
    let ghost lb = len_field@;
    assert(lb == len_bytes(total as int, l));
    let level_bytes = i32_to_ne(level);
    let kind_bytes = i32_to_ne(kind);
    let ghost vb = level_bytes@;
    let ghost kb = kind_bytes@;
    let mut f: Vec<u8> = Vec::new();
    push_zeros(&mut f, l.len_offset);
    append_bytes(&mut f, len_field);
    push_zeros(&mut f, l.level_offset - l.len_offset - l.len_width);
    append_bytes(&mut f, level_bytes);
    push_zeros(&mut f, l.kind_offset - l.level_offset - 4);
    append_bytes(&mut f, kind_bytes);
    push_zeros(&mut f, l.header_len - l.kind_offset - 4);
    let mut data: Vec<u8> = Vec::new();
    let mut i: usize = 0;
    while i < p
        invariant
            i <= p,
            p == payload@.len(),
            data@ == payload@.subrange(0, i as int),
        decreases p - i,
    {
        data.push(payload[i]);
        i = i + 1;
    }
    assert(data@ =~= payload@);
    append_bytes(&mut f, data);
    push_zeros(&mut f, space - total);
    proof {
        let fv = f@;
        let lo = l.len_offset as int;
        let vo = l.level_offset as int;
        let ko = l.kind_offset as int;
        let hl = l.header_len as int;
        assert(fv =~= frame_bytes(m, l));
        assert(fv.len() == space);
        assert(fv.subrange(lo, lo + l.len_width) =~= lb);
        if l.len_width == 4 {
            assert(fv.subrange(lo, lo + 4) =~= lb);
        } else {
            assert(fv.subrange(lo, lo + usize_width()) =~= lb);
        }
        assert(frame_len_field(fv, l) == total);
        assert(fv.subrange(vo, vo + 4) =~= vb);
        assert(fv.subrange(ko, ko + 4) =~= kb);
        assert(fv.subrange(hl, total as int) =~= payload@);
        assert(header_valid(fv, l));
        assert(next_offset(fv, l) == Some(space as nat));
        assert(fv.skip(space as int) =~= Seq::<u8>::empty());
        assert(frame_message(fv, l) == m);
        assert(parse_wire(fv.skip(space as int), l) =~= Seq::<WireMessage>::empty());
        assert(frames(fv.skip(space as int), l));
        assert(parse_wire(fv, l) =~= seq![m]);
    }
    f
}

/// Copies `b[start..end]`.
fn copy_range(b: &[u8], start: usize, end: usize) -> (r: Vec<u8>)
    requires
        start <= end <= b@.len(),
    ensures
        r@ == b@.subrange(start as int, end as int),
{
    let mut r: Vec<u8> = Vec::new();
    let mut i = start;
    while i < end
        invariant
            start <= i <= end <= b@.len(),
            r@ == b@.subrange(start as int, i as int),
        decreases end - i,
    {
        r.push(b[i]);
        i = i + 1;
        assert(r@ =~= b@.subrange(start as int, i as int));
    }
    r
}

/// The views of a list of messages.
pub open spec fn wire_views(v: Seq<RawMessage>) -> Seq<WireMessage> {
    v.map_values(|m: RawMessage| m@)
}

/// Reads `cmsg_len` of the header at `pos`.
fn read_len_field(bytes: &[u8], pos: usize, l: CmsgLayout) -> (total: usize)
    requires
        l.wf(),
        pos + l.header_size <= bytes@.len(),
    ensures
        total == frame_len_field(bytes@.skip(pos as int), l),
{
    let ghost rest = bytes@.skip(pos as int);
    let lo = l.len_offset;
    let n = bytes.len();
    assert(pos + lo + l.len_width <= n);
    if l.len_width == 4 {
        let v = u32_from_ne_at(bytes, pos + lo);
        assert(rest.subrange(lo as int, lo + 4) =~= bytes@.subrange(pos + lo, pos + lo + 4));
        v as usize
    } else {
        let v = usize_from_ne_at(bytes, pos + lo);
        assert(rest.subrange(lo as int, lo + usize_width()) =~= bytes@.subrange(
            pos + lo,
            pos + lo + usize_width(),
        ));
        v
    }
}

/// What is left of `b` after the parser read the message that starts it:
/// the bytes after that message's padded size, or nothing where the padding
/// runs past the end of `b`.
pub open spec fn rest_after(b: Seq<u8>, l: CmsgLayout) -> Seq<u8> {
    match next_offset(b, l) {
        Some(n) => if 0 < n <= b.len() {
            b.skip(n as int)
        } else {
            Seq::empty()
        },
        None => Seq::empty(),
    }
}

/// The parser over a control buffer: each step reads one message off the
/// front of what remains. It only reads bytes and never takes ownership of
/// anything.
pub struct RawMessages<'a> {
    bytes: &'a [u8],
    pos: usize,
    layout: CmsgLayout,
}

impl<'a> RawMessages<'a> {
    /// The bytes not yet read.
    pub closed spec fn remaining(&self) -> Seq<u8> {
        self.bytes@.skip(self.pos as int)
    }

    /// The header layout the parser reads with.
    pub closed spec fn layout(&self) -> CmsgLayout {
        self.layout
    }

    #[verifier::type_invariant]
    closed spec fn inv(&self) -> bool {
        &&& self.pos <= self.bytes@.len()
        &&& self.layout.wf()
    }

    /// A parser over all of `bytes`.
    pub fn new(bytes: &'a [u8], layout: CmsgLayout) -> (r: Self)
        requires
            layout.wf(),
        ensures
            r.remaining() == bytes@,
            r.layout() == layout,
    {
        let r = RawMessages { bytes, pos: 0, layout };
        assert(bytes@.skip(0) =~= bytes@);
        r
    }

    /// Reads the next message. There is none where what remains is shorter
    /// than a header, or where the header's `cmsg_len` is less than
    /// `CMSG_LEN(0)` or more than what remains; then nothing remains. A
    /// message has the header's level and type, and as payload the bytes
    /// from `CMSG_LEN(0)` up to `cmsg_len`; then what remains starts after
    /// its padded size, or is empty where that runs past the end.
    pub fn next(&mut self) -> (r: Option<RawMessage>)
        ensures
            final(self).layout() == old(self).layout(),
            r is None <==> (old(self).remaining().len() < old(self).layout().header_size
                || frame_len_field(old(self).remaining(), old(self).layout())
                < old(self).layout().header_len || frame_len_field(
                old(self).remaining(),
                old(self).layout(),
            ) > old(self).remaining().len()),
            r is None ==> final(self).remaining() == Seq::<u8>::empty(),
            r is Some ==> r.unwrap()@ == frame_message(old(self).remaining(), old(self).layout()),
            r is Some ==> r.unwrap().data@ == old(self).remaining().subrange(
                old(self).layout().header_len as int,
                frame_len_field(old(self).remaining(), old(self).layout()),
            ),
            r is Some ==> final(self).remaining() == rest_after(
                old(self).remaining(),
                old(self).layout(),
            ),
            r is Some ==> final(self).remaining().len() < old(self).remaining().len(),
            parse_wire(old(self).remaining(), old(self).layout()) == match r {
                Some(m) => seq![m@] + parse_wire(final(self).remaining(), old(self).layout()),
                None => Seq::<WireMessage>::empty(),
            },
    {
        proof {
            use_type_invariant(&*self);
        }
        let bytes = self.bytes;
        let pos = self.pos;
        let l = self.layout;
        let hlen = l.header_len;
        let ghost rest = bytes@.skip(pos as int);
        let remaining = bytes.len() - pos;
        if remaining < l.header_size {
            self.pos = bytes.len();
            assert(self.remaining() =~= Seq::<u8>::empty());
            return None;
        }
        let total = read_len_field(bytes, pos, l);
        if total < hlen || total > remaining {
            self.pos = bytes.len();
            assert(self.remaining() =~= Seq::<u8>::empty());
            return None;
        }
        let vo = l.level_offset;
        let ko = l.kind_offset;
        let level = i32_from_ne_at(bytes, pos + vo);
        let kind = i32_from_ne_at(bytes, pos + ko);
        let data = copy_range(bytes, pos + hlen, pos + total);
        assert(rest.subrange(vo as int, vo + 4) =~= bytes@.subrange(pos + vo, pos + vo + 4));
        assert(rest.subrange(ko as int, ko + 4) =~= bytes@.subrange(pos + ko, pos + ko + 4));
        assert(rest.subrange(hlen as int, total as int) =~= bytes@.subrange(
            pos + hlen,
            pos + total,
        ));
        let msg = RawMessage { level, kind, data };
        assert(msg@ == frame_message(rest, l));
        proof {
            lemma_space_for((total - hlen) as nat, l);
        }
        match cmsg_space(total - hlen, l) {
            Some(next) => {
                if next <= remaining {
                    self.pos = pos + next;
                    assert(rest.skip(next as int) =~= bytes@.skip(pos + next));
                } else {
                    self.pos = bytes.len();
                    assert(self.remaining() =~= Seq::<u8>::empty());
                }
            },
            None => {
                self.pos = bytes.len();
                assert(self.remaining() =~= Seq::<u8>::empty());
            },
        }
        assert(parse_wire(rest, l) =~= seq![msg@] + parse_wire(self.remaining(), l));
        Some(msg)
    }
}

/// Reads every message in `bytes`, in order, stopping as the parser does.
/// Never reads outside `bytes`.
pub fn parse_messages(bytes: &[u8], l: CmsgLayout) -> (r: Vec<RawMessage>)
    requires
        l.wf(),
    ensures
        wire_views(r@) == parse_wire(bytes@, l),
{
    let mut it = RawMessages::new(bytes, l);
    let mut out: Vec<RawMessage> = Vec::new();
    assert(wire_views(out@) =~= Seq::<WireMessage>::empty());
    loop
        invariant_except_break
            it.layout() == l,
            wire_views(out@) + parse_wire(it.remaining(), l) == parse_wire(bytes@, l),
        ensures
            wire_views(out@) == parse_wire(bytes@, l),
        decreases it.remaining().len(),
    {
        let ghost before = out@;
        let ghost rem = it.remaining();
        match it.next() {
            Some(m) => {
                let ghost mv = m@;
                out.push(m);
                assert(wire_views(out@) =~= wire_views(before).push(mv));
                assert(wire_views(out@) + parse_wire(it.remaining(), l) =~= wire_views(before)
                    + parse_wire(rem, l));
            },
            None => {
                assert(wire_views(out@) + parse_wire(rem, l) =~= wire_views(out@));
                break;
            },
        }
    }
    out
}

/// Number of control messages the parser reads from `buf`. A harness entry
/// point for fuzzing the parser; it creates no descriptor owners.
pub fn __fuzz_parse(buf: &[u8], l: CmsgLayout) -> (count: usize)
    requires
        l.wf(),
    ensures
        count == parse_wire(buf@, l).len(),
{
    let messages = parse_messages(buf, l);
    assert(wire_views(messages@).len() == messages@.len());
    messages.len()
}

/// The parser is bounded by its input: each message it reads takes at
/// least a header's worth of bytes, and each payload lies within the input.
pub proof fn lemma_parse_bounded(b: Seq<u8>, l: CmsgLayout)
    requires
        l.wf(),
    ensures
        parse_wire(b, l).len() * l.header_size <= b.len(),
        forall|i: int|
            0 <= i < parse_wire(b, l).len() ==> #[trigger] parse_wire(b, l)[i].data.len()
                + l.header_len <= b.len(),
    decreases b.len(),
{
    let h = l.header_size as int;
    if !header_valid(b, l) {
        assert(parse_wire(b, l).len() == 0);
        assert(0 * h == 0) by (nonlinear_arith);
    } else {
        let one = next_offset(b, l) is None || !(0 < next_offset(b, l).unwrap() <= b.len());
        if one {
            assert(parse_wire(b, l) == seq![frame_message(b, l)]);
            assert(1 * h == h) by (nonlinear_arith);
        } else {
            let n = next_offset(b, l).unwrap();
            lemma_space_for((frame_len_field(b, l) - l.header_len) as nat, l);
            lemma_parse_bounded(b.skip(n as int), l);
            let rest = parse_wire(b.skip(n as int), l);
            assert(parse_wire(b, l) == seq![frame_message(b, l)] + rest);
            assert((rest.len() + 1) * h == rest.len() * h + h) by (nonlinear_arith);
            assert forall|i: int| 0 <= i < parse_wire(b, l).len() implies #[trigger] parse_wire(
                b,
                l,
            )[i].data.len() + l.header_len <= b.len() by {
                if i > 0 {
                    assert(parse_wire(b, l)[i] == rest[i - 1]);
                }
            }
        }
    }
}

} // verus!
