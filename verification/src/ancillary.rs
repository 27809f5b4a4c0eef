//! Received control messages, and the buffer that builds or receives them.
use vstd::prelude::*;

use crate::bytes::{i32_from_ne_at, i32_to_ne, spec_i32_from_ne_bytes, spec_i32_to_ne_bytes};
use crate::codec::{
    encode_frame, frame_bytes, frames, is_frame_of, len_fits, lemma_parse_concat, parse_messages,
    parse_wire, wire_views, RawMessage, WireMessage,
};
use crate::error::{AncillaryError, FdError};
use crate::layout::{
    cmsg_space, lemma_align_up, lemma_align_up_monotone, lemma_space_for, space_fits, space_for,
    CmsgLayout,
};
use crate::credentials::{
    credentials_of, ucred_bytes, CredentialsView, ScmCredentials, CREDENTIALS_SIZE,
};
use crate::RecvResult;

verus! {

/// The numbers that identify socket-level control messages on one platform.
#[derive(Debug, Clone, Copy, PartialEq, Eq, Structural)]
pub struct CmsgCodes {
    /// `SOL_SOCKET`.
    pub sol_socket: i32,
    /// `SCM_RIGHTS`.
    pub scm_rights: i32,
    /// `SCM_CREDENTIALS`, where the platform passes credentials this way.
    pub scm_credentials: Option<i32>,
}

impl CmsgCodes {
    /// The two message types differ, so that a message means one thing.
    pub open spec fn valid(self) -> bool {
        self.scm_credentials != Some(self.scm_rights)
    }

    /// Whether these codes are [`valid`](Self::valid).
    pub fn is_valid(&self) -> (r: bool)
        ensures
            r == self.valid(),
    {
        match self.scm_credentials {
            Some(k) => k != self.scm_rights,
            None => true,
        }
    }
}

/// A received control message, by value.
pub enum ControlMessage {
    Rights(Seq<i32>),
    Credentials(CredentialsView),
}

/// The descriptors in an `SCM_RIGHTS` payload: each whole four-byte chunk
/// read as an `i32` in native byte order, keeping the non-negative ones.
/// A trailing partial chunk is ignored.
pub open spec fn rights_of(data: Seq<u8>) -> Seq<i32>
    decreases data.len(),
{
    if data.len() < 4 {
        Seq::empty()
    } else {
        let fd = spec_i32_from_ne_bytes(data.subrange(0, 4));
        let rest = rights_of(data.skip(4));
        if fd >= 0 {
            seq![fd] + rest
        } else {
            rest
        }
    }
}

/// The non-negative entries of `fds`, in order.
pub open spec fn nonneg(fds: Seq<i32>) -> Seq<i32>
    decreases fds.len(),
{
    if fds.len() == 0 {
        Seq::empty()
    } else {
        let rest = nonneg(fds.skip(1));
        if fds[0] >= 0 {
            seq![fds[0]] + rest
        } else {
            rest
        }
    }
}

/// What one raw message means: descriptors for an `SCM_RIGHTS` message,
/// credentials for an `SCM_CREDENTIALS` message with a whole `ucred`, and
/// nothing for any other message.
pub open spec fn interpret_one(m: WireMessage, codes: CmsgCodes) -> Seq<ControlMessage> {
    (if m.level == codes.sol_socket && m.kind == codes.scm_rights {
        seq![ControlMessage::Rights(rights_of(m.data))]
    } else {
        Seq::empty()
    }) + (if m.level == codes.sol_socket && codes.scm_credentials == Some(m.kind) && m.data.len()
        >= CREDENTIALS_SIZE {
        seq![ControlMessage::Credentials(credentials_of(m.data))]
    } else {
        Seq::empty()
    })
}

/// What a list of raw messages means, in order.
pub open spec fn interpret(ms: Seq<WireMessage>, codes: CmsgCodes) -> Seq<ControlMessage>
    decreases ms.len(),
{
    if ms.len() == 0 {
        Seq::empty()
    } else {
        interpret(ms.drop_last(), codes) + interpret_one(ms.last(), codes)
    }
}

/// The messages a receiver finds in control bytes `b`.
pub open spec fn decode_control(b: Seq<u8>, codes: CmsgCodes, l: CmsgLayout) -> Seq<
    ControlMessage,
> {
    interpret(parse_wire(b, l), codes)
}

/// Reading a chunk past whole chunks extends the descriptors read so far.
proof fn lemma_rights_append(p: Seq<u8>, b: Seq<u8>)
    requires
        p.len() % 4 == 0,
        b.len() == 4,
    ensures
        rights_of(p + b) == rights_of(p) + (if spec_i32_from_ne_bytes(b) >= 0 {
            seq![spec_i32_from_ne_bytes(b)]
        } else {
            Seq::<i32>::empty()
        }),
    decreases p.len(),
{
    if p.len() == 0 {
        assert(p + b =~= b);
        assert(b.subrange(0, 4) =~= b);
        assert(b.skip(4) =~= Seq::<u8>::empty());
        assert(rights_of(b.skip(4)) =~= Seq::<i32>::empty());
        assert(rights_of(p) =~= Seq::<i32>::empty());
    } else {
        lemma_rights_append(p.skip(4), b);
        assert((p + b).skip(4) =~= p.skip(4) + b);
        assert((p + b).subrange(0, 4) =~= p.subrange(0, 4));
        assert(rights_of(p + b) =~= rights_of(p) + (if spec_i32_from_ne_bytes(b) >= 0 {
            seq![spec_i32_from_ne_bytes(b)]
        } else {
            Seq::<i32>::empty()
        }));
    }
}

/// Filtering a longer list extends the filtered prefix.
proof fn lemma_nonneg_push(s: Seq<i32>, x: i32)
    ensures
        nonneg(s.push(x)) == nonneg(s) + (if x >= 0 {
            seq![x]
        } else {
            Seq::<i32>::empty()
        }),
    decreases s.len(),
{
    if s.len() == 0 {
        assert(s.push(x).skip(1) =~= Seq::<i32>::empty());
        assert(nonneg(s.push(x).skip(1)) =~= Seq::<i32>::empty());
        assert(nonneg(s) =~= Seq::<i32>::empty());
    } else {
        lemma_nonneg_push(s.skip(1), x);
        assert(s.push(x).skip(1) =~= s.skip(1).push(x));
        assert(nonneg(s.push(x)) =~= nonneg(s) + (if x >= 0 {
            seq![x]
        } else {
            Seq::<i32>::empty()
        }));
    }
}

/// Each descriptor of `fds` as four bytes in native byte order, in order.
pub open spec fn rights_bytes(fds: Seq<i32>) -> Seq<u8>
    decreases fds.len(),
{
    if fds.len() == 0 {
        Seq::empty()
    } else {
        rights_bytes(fds.drop_last()) + spec_i32_to_ne_bytes(fds.last())
    }
}

/// The `SCM_RIGHTS` payload for `fds`: each descriptor as four bytes in
/// native byte order.
pub fn rights_payload(fds: &[i32]) -> (payload: Vec<u8>)
    requires
        fds@.len() * 4 <= usize::MAX,
    ensures
        payload@ == rights_bytes(fds@),
        payload@.len() == fds@.len() * 4,
        rights_of(payload@) == nonneg(fds@),
{
    let mut payload: Vec<u8> = Vec::new();
    let mut i: usize = 0;
    assert(fds@.take(0) =~= Seq::<i32>::empty());
    while i < fds.len()
        invariant
            i <= fds@.len(),
            payload@.len() == i * 4,
            payload@ == rights_bytes(fds@.take(i as int)),
            rights_of(payload@) == nonneg(fds@.take(i as int)),
        decreases fds@.len() - i,
    {
        let mut chunk = i32_to_ne(fds[i]);
        let ghost before = payload@;
        let ghost c = chunk@;
        payload.append(&mut chunk);
        proof {
            lemma_rights_append(before, c);
            lemma_nonneg_push(fds@.take(i as int), fds@[i as int]);
            assert(fds@.take(i as int).push(fds@[i as int]) =~= fds@.take(i + 1));
            assert(fds@.take(i + 1).drop_last() =~= fds@.take(i as int));
        }
        i = i + 1;
    }
    assert(fds@.take(fds@.len() as int) =~= fds@);
    payload
}

/// The descriptors in an `SCM_RIGHTS` payload.
fn rights_from(data: &Vec<u8>) -> (fds: Vec<i32>)
    ensures
        fds@ == rights_of(data@),
{
    let mut fds: Vec<i32> = Vec::new();
    let mut i: usize = 0;
    assert(data@.skip(0) =~= data@);
    while data.len() - i >= 4
        invariant
            i <= data@.len(),
            fds@ + rights_of(data@.skip(i as int)) == rights_of(data@),
        decreases data@.len() - i,
    {
        let fd = i32_from_ne_at(data.as_slice(), i);
        let ghost rest = data@.skip(i as int);
        assert(rest.subrange(0, 4) =~= data@.subrange(i as int, i + 4));
        assert(rest.skip(4) =~= data@.skip(i + 4));
        let ghost before = fds@;
        if fd >= 0 {
            fds.push(fd);
            assert(fds@ + rights_of(data@.skip(i + 4)) =~= before + rights_of(rest));
        } else {
            assert(fds@ + rights_of(data@.skip(i + 4)) =~= before + rights_of(rest));
        }
        i = i + 4;
    }
    assert(rights_of(data@.skip(i as int)) =~= Seq::<i32>::empty());
    assert(fds@ + rights_of(data@.skip(i as int)) =~= fds@);
    fds
}


/// Descriptors of one received `SCM_RIGHTS` message, handed out front to
/// back, each once.
pub struct ScmRights {
    fds: Vec<i32>,
}

impl View for ScmRights {
    type V = Seq<i32>;

    closed spec fn view(&self) -> Seq<i32> {
        self.fds@
    }
}

impl ScmRights {
    /// The next descriptor, removed from those left.
    pub fn next(&mut self) -> (r: Option<i32>)
        ensures
            old(self)@.len() == 0 ==> r == None::<i32> && final(self)@ == old(self)@,
            old(self)@.len() > 0 ==> r == Some(old(self)@[0]) && final(self)@ == old(
                self,
            )@.drop_first(),
    {
        if self.fds.len() == 0 {
            None
        } else {
            let fd = self.fds.remove(0);
            assert(self.fds@ =~= old(self)@.drop_first());
            Some(fd)
        }
    }

    /// Number of descriptors left.
    pub fn len(&self) -> (n: usize)
        ensures
            n == self@.len(),
    {
        self.fds.len()
    }

    /// All descriptors left, in order.
    pub fn into_fds(self) -> (fds: Vec<i32>)
        ensures
            fds@ == self@,
    {
        self.fds
    }
}

/// Received ancillary data.
#[non_exhaustive]
pub enum AncillaryData {
    /// Descriptors from one `SCM_RIGHTS` message.
    ScmRights(ScmRights),
    /// Kernel-validated sender credentials from one `SCM_CREDENTIALS` message.
    Credentials(ScmCredentials),
}

impl View for AncillaryData {
    type V = ControlMessage;

    open spec fn view(&self) -> ControlMessage {
        match self {
            AncillaryData::ScmRights(r) => ControlMessage::Rights(r@),
            AncillaryData::Credentials(c) => ControlMessage::Credentials(c@),
        }
    }
}

/// The views of a list of received messages.
pub open spec fn data_views(v: Seq<AncillaryData>) -> Seq<ControlMessage> {
    v.map_values(|a: AncillaryData| a@)
}

/// Received control messages, handed out front to back, each once.
pub struct Messages {
    items: Vec<AncillaryData>,
}

impl View for Messages {
    type V = Seq<ControlMessage>;

    closed spec fn view(&self) -> Seq<ControlMessage> {
        data_views(self.items@)
    }
}

impl Messages {
    /// The next message, removed from those left.
    pub fn next(&mut self) -> (r: Option<AncillaryData>)
        ensures
            old(self)@.len() == 0 ==> r is None && final(self)@ == old(self)@,
            old(self)@.len() > 0 ==> r is Some && r.unwrap()@ == old(self)@[0] && final(self)@
                == old(self)@.drop_first(),
    {
        if self.items.len() == 0 {
            None
        } else {
            let ghost before = self.items@;
            let m = self.items.remove(0);
            assert(data_views(self.items@) =~= data_views(before).drop_first());
            Some(m)
        }
    }

    /// Number of messages left.
    pub fn len(&self) -> (n: usize)
        ensures
            n == self@.len(),
    {
        self.items.len()
    }
}

/// The messages a receiver finds in `bytes`: the parser's messages,
/// interpreted with `codes`.
pub fn take_received(bytes: &[u8], codes: CmsgCodes, layout: CmsgLayout) -> (r: Vec<
    AncillaryData,
>)
    requires
        layout.wf(),
    ensures
        data_views(r@) == decode_control(bytes@, codes, layout),
{
    let raw = parse_messages(bytes, layout);
    let ghost ms = wire_views(raw@);
    let mut out: Vec<AncillaryData> = Vec::new();
    let mut i: usize = 0;
    assert(ms.take(0) =~= Seq::<WireMessage>::empty());
    assert(data_views(out@) =~= Seq::<ControlMessage>::empty());
    while i < raw.len()
        invariant
            i <= raw@.len(),
            ms == wire_views(raw@),
            ms.len() == raw@.len(),
            data_views(out@) == interpret(ms.take(i as int), codes),
        decreases raw@.len() - i,
    {
        let m: &RawMessage = &raw[i];
        let ghost before = data_views(out@);
        assert(m@ == ms[i as int]);
        if m.level == codes.sol_socket && m.kind == codes.scm_rights {
            let fds = rights_from(&m.data);
            out.push(AncillaryData::ScmRights(ScmRights { fds }));
        }
        let is_credentials = match codes.scm_credentials {
            Some(k) => m.level == codes.sol_socket && m.kind == k && m.data.len()
                >= CREDENTIALS_SIZE,
            None => false,
        };
        if is_credentials {
            let c = ScmCredentials::from_ucred_bytes(m.data.as_slice());
            out.push(AncillaryData::Credentials(c));
        }
        proof {
            assert(ms.take(i + 1).drop_last() =~= ms.take(i as int));
            assert(ms.take(i + 1).last() == m@);
            assert(data_views(out@) =~= before + interpret_one(m@, codes));
        }
        i = i + 1;
    }
    assert(ms.take(raw@.len() as int) =~= ms);
    out
}

/// Whether the size of a message of `num_fds` descriptors is computed
/// without overflowing `usize`.
pub open spec fn rights_size_fits(num_fds: nat, l: CmsgLayout) -> bool {
    &&& num_fds * 4 <= usize::MAX
    &&& space_fits(num_fds * 4, l)
}

/// Writes `src` into `buf` at `offset`, leaving the other bytes alone.
fn write_at(buf: &mut Vec<u8>, offset: usize, src: &[u8])
    requires
        offset + src@.len() <= old(buf)@.len(),
    ensures
        final(buf)@ == old(buf)@.take(offset as int) + src@ + old(buf)@.skip(
            offset + src@.len(),
        ),
{
    let mut i: usize = 0;
    while i < src.len()
        invariant
            i <= src@.len(),
            offset + src@.len() <= old(buf)@.len(),
            buf@.len() == old(buf)@.len(),
            buf@ == old(buf)@.take(offset as int) + src@.take(i as int) + old(buf)@.skip(
                offset + i,
            ),
        decreases src@.len() - i,
    {
        let cap = buf.len();
        assert(offset + i < cap);
        buf[offset + i] = src[i];
        assert(buf@ =~= old(buf)@.take(offset as int) + src@.take(i + 1) + old(buf)@.skip(
            offset + i + 1,
        ));
        i = i + 1;
    }
    assert(src@.take(src@.len() as int) =~= src@);
}

/// Storage for sending or receiving ancillary messages.
///
/// A send buffer holds the messages added to it, laid out as the kernel
/// reads them, and yields no received messages. After a receive it holds
/// the received messages until they are drained; it must be cleared before
/// it builds a send.
pub struct SocketAncillary {
    buffer: Vec<u8>,
    length: usize,
    truncated: bool,
    received: Vec<AncillaryData>,
    receive_mode: bool,
    codes: CmsgCodes,
    layout: CmsgLayout,
    written: Ghost<Seq<WireMessage>>,
}

/// Whether a message of `payload_len` bytes can be added to `pre`: it is a
/// send buffer, its length fits `cmsg_len`, and the padded message fits
/// after what the buffer holds.
pub open spec fn add_fits(pre: SocketAncillary, payload_len: nat) -> bool {
    &&& !pre.receiving()
    &&& space_fits(payload_len, pre.layout())
    &&& len_fits(pre.layout().header_len + payload_len, pre.layout())
    &&& pre.used() + space_for(payload_len, pre.layout()) <= pre.storage().len()
}

/// `post` is `pre` with message `m` written after the messages it held.
pub open spec fn appended(pre: SocketAncillary, post: SocketAncillary, m: WireMessage) -> bool {
    &&& post.used() == pre.used() + space_for(m.data.len(), pre.layout())
    &&& post.storage().len() == pre.storage().len()
    &&& post.storage().skip(post.used() as int) == pre.storage().skip(post.used() as int)
    &&& post.control().take(pre.used() as int) == pre.control()
    &&& post.control().skip(pre.used() as int) == frame_bytes(m, pre.layout())
    &&& is_frame_of(post.control().skip(pre.used() as int), m, pre.layout())
    &&& post.written() == pre.written().push(m)
    &&& !post.receiving()
    &&& !post.ctrunc()
    &&& post.pending() == Seq::<ControlMessage>::empty()
    &&& post.codes() == pre.codes()
    &&& post.layout() == pre.layout()
}

impl SocketAncillary {
    /// The whole storage.
    pub closed spec fn storage(&self) -> Seq<u8> {
        self.buffer@
    }

    /// Bytes in use: the messages written, or the control data received.
    pub closed spec fn used(&self) -> nat {
        self.length as nat
    }

    /// The bytes in use.
    pub closed spec fn control(&self) -> Seq<u8> {
        self.buffer@.take(self.length as int)
    }

    /// Whether the buffer holds a receive (and so refuses to build a send).
    pub closed spec fn receiving(&self) -> bool {
        self.receive_mode
    }

    /// Whether the last receive reported `MSG_CTRUNC`.
    pub closed spec fn ctrunc(&self) -> bool {
        self.truncated
    }

    /// Received messages not yet drained.
    pub closed spec fn pending(&self) -> Seq<ControlMessage> {
        data_views(self.received@)
    }

    /// The message numbers this buffer reads and writes with.
    pub closed spec fn codes(&self) -> CmsgCodes {
        self.codes
    }

    /// The header layout this buffer reads and writes with.
    pub closed spec fn layout(&self) -> CmsgLayout {
        self.layout
    }

    /// The messages written since the buffer was made or cleared.
    pub closed spec fn written(&self) -> Seq<WireMessage> {
        self.written@
    }

    /// The invariant every buffer keeps: its codes and layout are valid, and a
    /// send buffer yields no received messages and holds exactly the messages
    /// written to it, whole and in order.
    #[verifier::type_invariant]
    pub closed spec fn wf(&self) -> bool {
        &&& self.length <= self.buffer@.len()
        &&& self.codes.valid()
        &&& self.layout.wf()
        &&& !self.receive_mode ==> {
            &&& self.received@.len() == 0
            &&& !self.truncated
            &&& frames(self.control(), self.layout)
            &&& parse_wire(self.control(), self.layout) == self.written@
        }
    }

    /// Create empty storage over `buffer`, for messages identified by
    /// `codes` with headers shaped as `layout`.
    pub fn new(buffer: Vec<u8>, codes: CmsgCodes, layout: CmsgLayout) -> (s: Self)
        requires
            codes.valid(),
            layout.wf(),
        ensures
            s.storage() == buffer@,
            s.used() == 0,
            !s.receiving(),
            !s.ctrunc(),
            s.pending() == Seq::<ControlMessage>::empty(),
            s.written() == Seq::<WireMessage>::empty(),
            s.codes() == codes,
            s.layout() == layout,
    {
        let s = SocketAncillary {
            buffer,
            length: 0,
            truncated: false,
            received: Vec::new(),
            receive_mode: false,
            codes,
            layout,
            written: Ghost(Seq::empty()),
        };
        assert(s.control() =~= Seq::<u8>::empty());
        assert(data_views(s.received@) =~= Seq::<ControlMessage>::empty());
        assert(parse_wire(s.control(), layout) =~= Seq::<WireMessage>::empty());
        s
    }

    /// Size of the storage.
    pub fn capacity(&self) -> (n: usize)
        ensures
            n == self.storage().len(),
    {
        self.buffer.len()
    }

    /// Buffer size for one `SCM_RIGHTS` message of `num_fds` descriptors.
    pub fn buffer_size_for_rights(num_fds: usize, layout: CmsgLayout) -> (n: usize)
        requires
            layout.wf(),
            rights_size_fits(num_fds as nat, layout),
        ensures
            n == space_for(num_fds as nat * 4, layout),
    {
        match cmsg_space(num_fds * 4, layout) {
            Some(n) => n,
            None => {
                assert(false);
                0
            },
        }
    }

    /// Buffer size for one `SCM_CREDENTIALS` message.
    pub fn buffer_size_for_credentials(layout: CmsgLayout) -> (n: usize)
        requires
            layout.wf(),
        ensures
            n == space_for(CREDENTIALS_SIZE as nat, layout),
    {
        proof {
            assert(usize::BITS == 32 || usize::BITS == 64);
            lemma_align_up(CREDENTIALS_SIZE as nat, layout.align as nat);
        }
        match cmsg_space(CREDENTIALS_SIZE, layout) {
            Some(n) => n,
            None => {
                assert(false);
                0
            },
        }
    }

    /// Moves the contents out, leaving an empty receive buffer with the same
    /// codes and layout in their place.
    fn take(&mut self) -> (prev: SocketAncillary)
        ensures
            prev == *old(self),
            final(self).codes() == old(self).codes(),
            final(self).layout() == old(self).layout(),
    {
        proof {
            use_type_invariant(&*self);
        }
        let mut prev = SocketAncillary {
            buffer: Vec::new(),
            length: 0,
            truncated: false,
            received: Vec::new(),
            receive_mode: true,
            codes: self.codes,
            layout: self.layout,
            written: Ghost(Seq::empty()),
        };
        core::mem::swap(self, &mut prev);
        prev
    }

    /// Write one message after those already held.
    fn add_cmsg(&mut self, level: i32, kind: i32, payload: &Vec<u8>) -> (r: Result<
        (),
        AncillaryError,
    >)
        ensures
            r is Ok <==> add_fits(*old(self), payload@.len() as nat),
            r is Err ==> *final(self) == *old(self),
            r is Ok ==> appended(
                *old(self),
                *final(self),
                WireMessage { level, kind, data: payload@ },
            ),
    {
        proof {
            use_type_invariant(&*self);
        }
        let cap = self.buffer.len();
        if self.receive_mode {
            return Err(AncillaryError);
        }
        let layout = self.layout;
        let space = match cmsg_space(payload.len(), layout) {
            Some(s) => s,
            None => return Err(AncillaryError),
        };
        let end = match self.length.checked_add(space) {
            Some(e) => e,
            None => return Err(AncillaryError),
        };
        if end > cap {
            return Err(AncillaryError);
        }
        let total = match layout.header_len.checked_add(payload.len()) {
            Some(t) => t,
            None => return Err(AncillaryError),
        };
        if layout.len_width == 4 && total > 0xffff_ffffusize {
            return Err(AncillaryError);
        }
        proof {
            lemma_space_for(payload@.len() as nat, layout);
        }
        let frame = encode_frame(level, kind, payload, layout);
        let ghost m = WireMessage { level, kind, data: payload@ };
        let ghost pre = *self;
        let ghost old_control = self.control();
        let SocketAncillary {
            mut buffer,
            length,
            truncated,
            received,
            receive_mode,
            codes,
            layout,
            written,
        } = self.take();
        write_at(&mut buffer, length, frame.as_slice());
        let ghost w = written@.push(m);
        proof {
            let b = buffer@;
            assert(b.take(end as int) =~= old_control + frame@);
            assert(b.take(end as int).take(length as int) =~= old_control);
            assert(b.take(end as int).skip(length as int) =~= frame@);
            assert(b.skip(end as int) =~= pre.buffer@.skip(end as int));
            lemma_parse_concat(old_control, frame@, layout);
            assert(parse_wire(b.take(end as int), layout) =~= w);
            assert(data_views(received@) =~= Seq::<ControlMessage>::empty());
        }
        *self = SocketAncillary {
            buffer,
            length: end,
            truncated,
            received,
            receive_mode,
            codes,
            layout,
            written: Ghost(w),
        };
        proof {
            assert(self.control().take(pre.length as int) =~= old_control);
            assert(self.control().skip(pre.length as int) =~= frame@);
        }
        Ok(())
    }

    /// Append descriptors as one `SCM_RIGHTS` message. The descriptors stay
    /// the caller's; only their numbers are written. A receive buffer must
    /// be cleared first.
    pub fn add_fds(&mut self, fds: &[i32]) -> (r: Result<(), AncillaryError>)
        requires
            fds@.len() * 4 <= usize::MAX,
        ensures
            r is Ok <==> add_fits(*old(self), fds@.len() * 4),
            r is Err ==> *final(self) == *old(self),
            r is Ok ==> {
                let m = final(self).written().last();
                &&& appended(*old(self), *final(self), m)
                &&& m.level == old(self).codes().sol_socket
                &&& m.kind == old(self).codes().scm_rights
                &&& m.data == rights_bytes(fds@)
                &&& m.data.len() == fds@.len() * 4
                &&& rights_of(m.data) == nonneg(fds@)
                &&& interpret_one(m, old(self).codes()) == seq![
                    ControlMessage::Rights(nonneg(fds@)),
                ]
            },
    {
        proof {
            use_type_invariant(&*self);
        }
        let payload = rights_payload(fds);
        let level = self.codes.sol_socket;
        let kind = self.codes.scm_rights;
        let r = self.add_cmsg(level, kind, &payload);
        proof {
            if r is Ok {
                let m = WireMessage { level, kind, data: payload@ };
                assert(self.written().last() == m);
                assert(interpret_one(m, old(self).codes()) =~= seq![
                    ControlMessage::Rights(nonneg(fds@)),
                ]);
            }
        }
        r
    }

    /// Append credentials as one `SCM_CREDENTIALS` message. The kernel
    /// validates the claim on send.
    pub fn add_credentials(&mut self, creds: ScmCredentials) -> (r: Result<(), AncillaryError>)
        requires
            old(self).codes().scm_credentials is Some,
        ensures
            r is Ok <==> add_fits(*old(self), CREDENTIALS_SIZE as nat),
            r is Err ==> *final(self) == *old(self),
            r is Ok ==> {
                let m = final(self).written().last();
                &&& appended(*old(self), *final(self), m)
                &&& m.level == old(self).codes().sol_socket
                &&& Some(m.kind) == old(self).codes().scm_credentials
                &&& m.data == ucred_bytes(creds@)
                &&& m.data.len() == CREDENTIALS_SIZE
                &&& credentials_of(m.data) == creds@
                &&& interpret_one(m, old(self).codes()) == seq![
                    ControlMessage::Credentials(creds@),
                ]
            },
    {
        proof {
            use_type_invariant(&*self);
        }
        let payload = creds.to_ucred_bytes();
        let level = self.codes.sol_socket;
        let kind = match self.codes.scm_credentials {
            Some(k) => k,
            None => {
                assert(false);
                0
            },
        };
        let r = self.add_cmsg(level, kind, &payload);
        proof {
            if r is Ok {
                let m = WireMessage { level, kind, data: payload@ };
                assert(self.written().last() == m);
                assert(interpret_one(m, old(self).codes()) =~= seq![
                    ControlMessage::Credentials(creds@),
                ]);
            }
        }
        r
    }

    /// Drain the received messages, each once. A send buffer yields none.
    pub fn messages(&mut self) -> (m: Messages)
        ensures
            m@ == old(self).pending(),
            final(self).pending() == Seq::<ControlMessage>::empty(),
            final(self).storage() == old(self).storage(),
            final(self).used() == old(self).used(),
            final(self).receiving() == old(self).receiving(),
            final(self).ctrunc() == old(self).ctrunc(),
            final(self).written() == old(self).written(),
            final(self).codes() == old(self).codes(),
            final(self).layout() == old(self).layout(),
    {
        proof {
            use_type_invariant(&*self);
        }
        let mut items: Vec<AncillaryData> = Vec::new();
        core::mem::swap(&mut items, &mut self.received);
        assert(data_views(self.received@) =~= Seq::<ControlMessage>::empty());
        Messages { items }
    }

    /// Whether the last receive reported `MSG_CTRUNC`: delivered descriptors
    /// are held, but the complete control data did not arrive.
    pub fn is_truncated(&self) -> (t: bool)
        ensures
            t == self.ctrunc(),
    {
        self.truncated
    }

    /// Drop unread received messages and reset the storage for a new send.
    pub fn clear(&mut self)
        ensures
            final(self).storage() == old(self).storage(),
            final(self).used() == 0,
            !final(self).receiving(),
            !final(self).ctrunc(),
            final(self).pending() == Seq::<ControlMessage>::empty(),
            final(self).written() == Seq::<WireMessage>::empty(),
            final(self).codes() == old(self).codes(),
            final(self).layout() == old(self).layout(),
    {
        let prev = self.take();
        proof {
            use_type_invariant(&prev);
        }
        let SocketAncillary { buffer, codes, layout, .. } = prev;
        let received: Vec<AncillaryData> = Vec::new();
        proof {
            assert(buffer@.take(0) =~= Seq::<u8>::empty());
            assert(parse_wire(Seq::<u8>::empty(), layout) =~= Seq::<WireMessage>::empty());
            assert(data_views(received@) =~= Seq::<ControlMessage>::empty());
        }
        *self = SocketAncillary {
            buffer,
            length: 0,
            truncated: false,
            received,
            receive_mode: false,
            codes,
            layout,
            written: Ghost(Seq::empty()),
        };
        assert(self.control() =~= Seq::<u8>::empty());
    }

    /// The control bytes to hand to `sendmsg`; refused for a receive buffer
    /// that has not been cleared.
    pub fn control_for_send(&self) -> (r: Result<Vec<u8>, FdError>)
        ensures
            self.receiving() ==> r == Err::<Vec<u8>, FdError>(FdError::ReceiveBufferNotCleared),
            !self.receiving() ==> r is Ok && r.unwrap()@ == self.control(),
            !self.receiving() ==> frames(r.unwrap()@, self.layout()) && parse_wire(
                r.unwrap()@,
                self.layout(),
            ) == self.written(),
            !self.receiving() ==> decode_control(r.unwrap()@, self.codes(), self.layout())
                == interpret(self.written(), self.codes()),
    {
        proof {
            use_type_invariant(self);
        }
        if self.receive_mode {
            return Err(FdError::ReceiveBufferNotCleared);
        }
        let mut out: Vec<u8> = Vec::new();
        let mut i: usize = 0;
        while i < self.length
            invariant
                self.length <= self.buffer@.len(),
                i <= self.length,
                out@ == self.buffer@.take(i as int),
            decreases self.length - i,
        {
            out.push(self.buffer[i]);
            i = i + 1;
            assert(out@ =~= self.buffer@.take(i as int));
        }
        Ok(out)
    }

    /// Start a receive: drop unread messages and refuse sends until cleared.
    /// A receive that then fails leaves the buffer in this empty state.
    pub fn begin_receive(&mut self)
        ensures
            final(self).storage() == old(self).storage(),
            final(self).used() == 0,
            final(self).receiving(),
            !final(self).ctrunc(),
            final(self).pending() == Seq::<ControlMessage>::empty(),
            final(self).written() == Seq::<WireMessage>::empty(),
            final(self).codes() == old(self).codes(),
            final(self).layout() == old(self).layout(),
    {
        self.clear();
        proof {
            use_type_invariant(&*self);
        }
        self.receive_mode = true;
    }

    /// Finish a receive whose kernel-written control data is `control`:
    /// hold it, and hold the messages found in it until drained.
    pub fn complete_receive(
        &mut self,
        control: &[u8],
        bytes_read: usize,
        ancillary_truncated: bool,
        data_truncated: bool,
    ) -> (r: RecvResult)
        requires
            control@.len() <= old(self).storage().len(),
        ensures
            final(self).receiving(),
            final(self).control() == control@,
            final(self).storage().len() == old(self).storage().len(),
            final(self).storage().skip(control@.len() as int) == old(self).storage().skip(
                control@.len() as int,
            ),
            final(self).pending() == decode_control(control@, old(self).codes(), old(self).layout()),
            final(self).ctrunc() == ancillary_truncated,
            final(self).written() == Seq::<WireMessage>::empty(),
            final(self).codes() == old(self).codes(),
            final(self).layout() == old(self).layout(),
            r == (RecvResult { bytes_read, truncated: ancillary_truncated, data_truncated }),
    {
        let ghost pre = self.buffer@;
        let prev = self.take();
        proof {
            use_type_invariant(&prev);
        }
        let SocketAncillary { mut buffer, codes, layout, .. } = prev;
        write_at(&mut buffer, 0, control);
        let received = take_received(control, codes, layout);
        *self = SocketAncillary {
            buffer,
            length: control.len(),
            truncated: ancillary_truncated,
            received,
            receive_mode: true,
            codes,
            layout,
            written: Ghost(Seq::empty()),
        };
        assert(self.buffer@.take(control@.len() as int) =~= control@);
        assert(self.buffer@.skip(control@.len() as int) =~= pre.skip(control@.len() as int));
        RecvResult { bytes_read, truncated: ancillary_truncated, data_truncated }
    }
}

/// A send buffer never yields received messages: whatever was added to it,
/// draining it gives nothing.
pub proof fn lemma_send_buffer_yields_no_messages(anc: SocketAncillary)
    requires
        anc.wf(),
        !anc.receiving(),
    ensures
        anc.pending() == Seq::<ControlMessage>::empty(),
{
    assert(data_views(anc.received@) =~= Seq::<ControlMessage>::empty());
}

/// The bytes of a send buffer, read by the receive-side parser, are the
/// messages written to it, whole and in order; the receive-side decoder
/// gives exactly what those messages mean.
pub proof fn lemma_send_buffer_reads_back(anc: SocketAncillary)
    requires
        anc.wf(),
        !anc.receiving(),
    ensures
        frames(anc.control(), anc.layout()),
        parse_wire(anc.control(), anc.layout()) == anc.written(),
        decode_control(anc.control(), anc.codes(), anc.layout()) == interpret(
            anc.written(),
            anc.codes(),
        ),
{
}

/// What a receive buffer holds after it received a send buffer's control
/// bytes, where both were made with the same codes and layout: exactly the
/// messages written to the send buffer, in order, as they are read back.
pub proof fn lemma_receive_reads_send(
    send: SocketAncillary,
    pre: SocketAncillary,
    post: SocketAncillary,
)
    requires
        send.wf(),
        !send.receiving(),
        pre.wf(),
        pre.codes() == send.codes(),
        pre.layout() == send.layout(),
        post.control() == send.control(),
        post.pending() == decode_control(send.control(), pre.codes(), pre.layout()),
    ensures
        post.pending() == interpret(send.written(), send.codes()),
        rights_flat(post.pending()) == rights_flat(interpret(send.written(), send.codes())),
{
    lemma_send_buffer_reads_back(send);
}


/// The descriptors of a list of messages, in order; credentials carry none.
pub open spec fn rights_flat(ms: Seq<ControlMessage>) -> Seq<i32>
    decreases ms.len(),
{
    if ms.len() == 0 {
        Seq::empty()
    } else {
        rights_flat(ms.drop_last()) + match ms.last() {
            ControlMessage::Rights(fds) => fds,
            ControlMessage::Credentials(_) => Seq::empty(),
        }
    }
}

/// The descriptors of a list of messages are those of its parts, in order:
/// every `SCM_RIGHTS` message contributes all of its descriptors, and a
/// credentials message contributes none.
pub proof fn lemma_rights_flat_concat(a: Seq<ControlMessage>, b: Seq<ControlMessage>)
    ensures
        rights_flat(a + b) == rights_flat(a) + rights_flat(b),
    decreases b.len(),
{
    if b.len() == 0 {
        assert(a + b =~= a);
        assert(rights_flat(a) + rights_flat(b) =~= rights_flat(a));
    } else {
        assert((a + b).drop_last() =~= a + b.drop_last());
        assert((a + b).last() == b.last());
        lemma_rights_flat_concat(a, b.drop_last());
        assert(rights_flat(a + b) =~= rights_flat(a) + rights_flat(b));
    }
}

/// One `SCM_RIGHTS` message yields exactly its descriptors; one credentials
/// message yields none.
pub proof fn lemma_rights_flat_single(fds: Seq<i32>, c: CredentialsView)
    ensures
        rights_flat(seq![ControlMessage::Rights(fds)]) == fds,
        rights_flat(seq![ControlMessage::Credentials(c)]) == Seq::<i32>::empty(),
{
    let r = seq![ControlMessage::Rights(fds)];
    let k = seq![ControlMessage::Credentials(c)];
    assert(r.drop_last() =~= Seq::<ControlMessage>::empty());
    assert(k.drop_last() =~= Seq::<ControlMessage>::empty());
    assert(rights_flat(r.drop_last()) =~= Seq::<i32>::empty());
    assert(r.last() == ControlMessage::Rights(fds));
    assert(rights_flat(r) =~= Seq::<i32>::empty() + fds);
    assert(rights_flat(r) =~= fds);
    assert(rights_flat(k) =~= Seq::<i32>::empty());
}

/// The descriptors of `items`, in order.
fn flatten_rights(items: &Vec<AncillaryData>) -> (fds: Vec<i32>)
    ensures
        fds@ == rights_flat(data_views(items@)),
{
    let ghost ms = data_views(items@);
    let mut fds: Vec<i32> = Vec::new();
    let mut i: usize = 0;
    assert(ms.take(0) =~= Seq::<ControlMessage>::empty());
    while i < items.len()
        invariant
            i <= items@.len(),
            ms == data_views(items@),
            ms.len() == items@.len(),
            fds@ == rights_flat(ms.take(i as int)),
        decreases items@.len() - i,
    {
        assert(ms.take(i + 1).drop_last() =~= ms.take(i as int));
        assert(ms.take(i + 1).last() == items@[i as int]@);
        match &items[i] {
            AncillaryData::ScmRights(r) => {
                let mut i2: usize = 0;
                let ghost before = fds@;
                while i2 < r.fds.len()
                    invariant
                        i2 <= r.fds@.len(),
                        fds@ == before + r.fds@.take(i2 as int),
                    decreases r.fds@.len() - i2,
                {
                    fds.push(r.fds[i2]);
                    i2 = i2 + 1;
                    assert(fds@ =~= before + r.fds@.take(i2 as int));
                }
                assert(r.fds@.take(r.fds@.len() as int) =~= r.fds@);
            },
            AncillaryData::Credentials(_) => {
                assert(fds@ =~= rights_flat(ms.take(i + 1)));
            },
        }
        i = i + 1;
    }
    assert(ms.take(items@.len() as int) =~= ms);
    fds
}

impl SocketAncillary {
    /// The descriptors of the received messages not yet drained, in order.
    pub fn pending_fds(&self) -> (fds: Vec<i32>)
        ensures
            fds@ == rights_flat(self.pending()),
    {
        flatten_rights(&self.received)
    }

    /// Drain the received messages, keeping only their descriptors, in
    /// order. Credentials are dropped.
    pub fn take_fds(&mut self) -> (fds: Vec<i32>)
        ensures
            fds@ == rights_flat(old(self).pending()),
            final(self).pending() == Seq::<ControlMessage>::empty(),
            final(self).storage() == old(self).storage(),
            final(self).used() == old(self).used(),
            final(self).receiving() == old(self).receiving(),
            final(self).ctrunc() == old(self).ctrunc(),
            final(self).written() == old(self).written(),
            final(self).codes() == old(self).codes(),
            final(self).layout() == old(self).layout(),
    {
        proof {
            use_type_invariant(&*self);
        }
        let fds = flatten_rights(&self.received);
        self.received = Vec::new();
        assert(data_views(self.received@) =~= Seq::<ControlMessage>::empty());
        fds
    }

    /// A send buffer holding one `SCM_RIGHTS` message with `fds`, of exactly
    /// `buffer_size_for_rights(fds.len())` bytes.
    pub fn for_rights(fds: &[i32], codes: CmsgCodes, layout: CmsgLayout) -> (anc: SocketAncillary)
        requires
            codes.valid(),
            layout.wf(),
            rights_size_fits(fds@.len() as nat, layout),
            len_fits(layout.header_len + fds@.len() * 4, layout),
        ensures
            !anc.receiving(),
            anc.codes() == codes,
            anc.layout() == layout,
            anc.used() == space_for(fds@.len() * 4, layout),
            anc.storage().len() == anc.used(),
            anc.written().len() == 1,
            anc.written()[0].level == anc.codes().sol_socket,
            anc.written()[0].kind == anc.codes().scm_rights,
            interpret(anc.written(), anc.codes()) == seq![ControlMessage::Rights(nonneg(fds@))],
            decode_control(anc.control(), codes, layout) == seq![
                ControlMessage::Rights(nonneg(fds@)),
            ],
    {
        let size = SocketAncillary::buffer_size_for_rights(fds.len(), layout);
        let mut anc = SocketAncillary::new(vec![0u8; size], codes, layout);
        let r = anc.add_fds(fds);
        match r {
            Ok(()) => {},
            Err(_) => {
                assert(false);
            },
        }
        proof {
            let w = anc.written();
            assert(w.drop_last() =~= Seq::<WireMessage>::empty());
            assert(interpret(w.drop_last(), anc.codes()) =~= Seq::<ControlMessage>::empty());
            assert(interpret(w, anc.codes()) =~= interpret_one(w.last(), anc.codes()));
            use_type_invariant(&anc);
            lemma_send_buffer_reads_back(anc);
        }
        anc
    }
}

/// Buffer sizes for rights grow with the number of descriptors, and every
/// message takes at least a header.
pub proof fn lemma_buffer_size_for_rights_monotone(m: nat, n: nat, l: CmsgLayout)
    requires
        l.wf(),
        m <= n,
    ensures
        space_for(m * 4, l) <= space_for(n * 4, l),
        space_for(m * 4, l) >= l.header_len,
{
    lemma_align_up_monotone(m * 4, n * 4, l.align as nat);
    lemma_align_up(m * 4, l.align as nat);
}

/// A send buffer of `buffer_size_for_rights(n) + buffer_size_for_credentials()`
/// bytes takes one message of `n` descriptors and then one of credentials.
pub proof fn lemma_rights_and_credentials_fit(
    pre: SocketAncillary,
    mid: SocketAncillary,
    n: nat,
    m: WireMessage,
)
    requires
        pre.wf(),
        !pre.receiving(),
        pre.used() == 0,
        rights_size_fits(n, pre.layout()),
        len_fits(pre.layout().header_len + n * 4, pre.layout()),
        pre.storage().len() == space_for(n * 4, pre.layout()) + space_for(
            CREDENTIALS_SIZE as nat,
            pre.layout(),
        ),
    ensures
        add_fits(pre, n * 4),
        appended(pre, mid, m) && m.data.len() == n * 4 ==> add_fits(mid, CREDENTIALS_SIZE as nat),
{
    assert(usize::BITS == 32 || usize::BITS == 64);
    lemma_align_up(CREDENTIALS_SIZE as nat, pre.layout().align as nat);
}

} // verus!
