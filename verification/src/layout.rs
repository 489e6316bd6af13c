//! The fixed binary layout of the shared struct.
//!
//! The foreign process reads the segment at fixed offsets, so the field
//! order and widths are protocol constants: little-endian 32-bit words,
//! UTF-16 code units two bytes each, and raw context bytes. The layout is
//! written as an explicit encode/decode over a byte buffer rather than as
//! a native aliased struct, keeping size and alignment auditable.

use vstd::prelude::*;

verus! {

/// Bit pattern of the 32-bit floating-point value one, used by the
/// protocol's default orientation vectors.
pub const ONE_BITS: u32 = 0x3F80_0000;

/// A position in three-dimensional space: three 3-component vectors.
///
/// Components are carried as the raw 32-bit patterns of the protocol's
/// floating-point values; the embedding program converts at the edge.
/// `front` and `top` are intended as unit, mutually perpendicular vectors,
/// which is not validated.
#[derive(Clone, Copy, Debug, PartialEq)]
pub struct Position {
    /// The character's position in space.
    pub position: [u32; 3],
    /// Unit vector out of the character's eyes.
    pub front: [u32; 3],
    /// Unit vector out of the top of the character's head.
    pub top: [u32; 3],
}

/// The protocol's resting pose: origin, facing along the third axis, up
/// along the second.
pub open spec fn is_default_position(p: Position) -> bool {
    &&& p.position@ == seq![0u32, 0u32, 0u32]
    &&& p.front@ == seq![0u32, 0u32, ONE_BITS]
    &&& p.top@ == seq![0u32, ONE_BITS, 0u32]
}

/// A position with every component zero.
pub open spec fn is_zero_position(p: Position) -> bool {
    &&& p.position@ == seq![0u32, 0u32, 0u32]
    &&& p.front@ == seq![0u32, 0u32, 0u32]
    &&& p.top@ == seq![0u32, 0u32, 0u32]
}

impl Default for Position {
    fn default() -> (r: Position)
        ensures
            is_default_position(r),
    {
        let r = Position {
            position: [0, 0, 0],
            front: [0, 0, ONE_BITS],
            top: [0, ONE_BITS, 0],
        };
        proof {
            assert(r.position@ =~= seq![0u32, 0u32, 0u32]);
            assert(r.front@ =~= seq![0u32, 0u32, ONE_BITS]);
            assert(r.top@ =~= seq![0u32, ONE_BITS, 0u32]);
        }
        r
    }
}

/// Width of the name buffer in UTF-16 code units.
pub const NAME_UNITS: usize = 256;

/// Width of the identity buffer in UTF-16 code units.
pub const IDENTITY_UNITS: usize = 256;

/// Width of the description buffer in UTF-16 code units.
pub const DESCRIPTION_UNITS: usize = 2048;

/// Width of the context buffer in bytes.
pub const CONTEXT_BYTES: usize = 256;

/// Total size of the shared struct in bytes.
pub const LINKED_MEM_BYTES: usize = 5460;

pub open spec fn zero_units(n: nat) -> Seq<u16> {
    Seq::new(n, |i: int| 0u16)
}

pub open spec fn zero_bytes(n: nat) -> Seq<u8> {
    Seq::new(n, |i: int| 0u8)
}

/// The process-local copy of the shared struct. A version tag of zero
/// marks an unowned segment; the tick is a wrapping per-frame counter used
/// by readers as a liveness signal.
#[derive(Debug)]
pub struct LinkedMem {
    pub ui_version: u32,
    pub ui_tick: u32,
    pub avatar: Position,
    pub name: Vec<u16>,
    pub camera: Position,
    pub identity: Vec<u16>,
    pub context_len: u32,
    pub context: Vec<u8>,
    pub description: Vec<u16>,
}

impl LinkedMem {
    /// The buffers have their protocol-mandated widths.
    pub open spec fn wf(self) -> bool {
        &&& self.name@.len() == NAME_UNITS
        &&& self.identity@.len() == IDENTITY_UNITS
        &&& self.context@.len() == CONTEXT_BYTES
        &&& self.description@.len() == DESCRIPTION_UNITS
    }

    /// Every field zero: the released state of a segment.
    pub open spec fn is_zeroed(self) -> bool {
        &&& self.ui_version == 0
        &&& self.ui_tick == 0
        &&& is_zero_position(self.avatar)
        &&& self.name@ == zero_units(NAME_UNITS as nat)
        &&& is_zero_position(self.camera)
        &&& self.identity@ == zero_units(IDENTITY_UNITS as nat)
        &&& self.context_len == 0
        &&& self.context@ == zero_bytes(CONTEXT_BYTES as nat)
        &&& self.description@ == zero_units(DESCRIPTION_UNITS as nat)
    }

    /// A session's starting local copy: version 2, tick zero, default
    /// poses, the given name and description encoded, everything else
    /// zero.
    pub open spec fn is_fresh_local(self, name: Seq<char>, description: Seq<char>) -> bool {
        &&& self.wf()
        &&& self.ui_version == 2
        &&& self.ui_tick == 0
        &&& is_default_position(self.avatar)
        &&& is_default_position(self.camera)
        &&& self.name@ == crate::wide::encoded_buffer(name, NAME_UNITS as int)
        &&& self.identity@ == zero_units(IDENTITY_UNITS as nat)
        &&& self.context_len == 0
        &&& self.context@ == zero_bytes(CONTEXT_BYTES as nat)
        &&& self.description@ == crate::wide::encoded_buffer(description, DESCRIPTION_UNITS as int)
    }

    /// A fresh local copy: version 2, tick zero, default poses, the given
    /// name and description encoded into their buffers, everything else
    /// zero.
    pub fn new(name: &str, description: &str) -> (r: LinkedMem)
        ensures
            r.is_fresh_local(name@, description@),
    {
        let mut r = LinkedMem {
            ui_version: 2,
            ui_tick: 0,
            avatar: Position::default(),
            name: vec![0u16; NAME_UNITS],
            camera: Position::default(),
            identity: vec![0u16; IDENTITY_UNITS],
            context_len: 0,
            context: vec![0u8; CONTEXT_BYTES],
            description: vec![0u16; DESCRIPTION_UNITS],
        };
        proof {
            assert(r.identity@ =~= zero_units(IDENTITY_UNITS as nat));
            assert(r.context@ =~= zero_bytes(CONTEXT_BYTES as nat));
        }
        crate::wide::copy(&mut r.name, name);
        crate::wide::copy(&mut r.description, description);
        proof {
            assert(r.name@ =~= crate::wide::encoded_buffer(name@, NAME_UNITS as int));
            assert(r.description@ =~= crate::wide::encoded_buffer(
                description@,
                DESCRIPTION_UNITS as int,
            ));
        }
        r
    }

    /// An all-zero struct: what a releasing owner writes back so that the
    /// next claimant finds the segment unowned.
    pub fn zeroed() -> (r: LinkedMem)
        ensures
            r.wf(),
            r.is_zeroed(),
    {
        let zero_pos = Position { position: [0, 0, 0], front: [0, 0, 0], top: [0, 0, 0] };
        proof {
            assert(zero_pos.position@ =~= seq![0u32, 0u32, 0u32]);
            assert(zero_pos.front@ =~= seq![0u32, 0u32, 0u32]);
            assert(zero_pos.top@ =~= seq![0u32, 0u32, 0u32]);
        }
        let r = LinkedMem {
            ui_version: 0,
            ui_tick: 0,
            avatar: zero_pos,
            name: vec![0u16; NAME_UNITS],
            camera: zero_pos,
            identity: vec![0u16; IDENTITY_UNITS],
            context_len: 0,
            context: vec![0u8; CONTEXT_BYTES],
            description: vec![0u16; DESCRIPTION_UNITS],
        };
        proof {
            assert(r.name@ =~= zero_units(NAME_UNITS as nat));
            assert(r.identity@ =~= zero_units(IDENTITY_UNITS as nat));
            assert(r.context@ =~= zero_bytes(CONTEXT_BYTES as nat));
            assert(r.description@ =~= zero_units(DESCRIPTION_UNITS as nat));
        }
        r
    }

    /// How many context bytes a given input fills: all of them, capped at
    /// the buffer width.
    pub open spec fn stored_context_len(bytes: Seq<u8>) -> int {
        if bytes.len() <= CONTEXT_BYTES {
            bytes.len() as int
        } else {
            CONTEXT_BYTES as int
        }
    }

    /// `post` is `pre` with the first `stored_context_len(bytes)` bytes of
    /// `bytes` stored and the length field recording exactly that count;
    /// context bytes past it and every other field keep their old values.
    pub open spec fn context_set(post: LinkedMem, pre: LinkedMem, bytes: Seq<u8>) -> bool {
        &&& post.context@ == bytes.take(Self::stored_context_len(bytes)) + pre.context@.skip(
            Self::stored_context_len(bytes),
        )
        &&& post.context_len == Self::stored_context_len(bytes)
        &&& post.ui_version == pre.ui_version
        &&& post.ui_tick == pre.ui_tick
        &&& post.avatar == pre.avatar
        &&& post.name == pre.name
        &&& post.camera == pre.camera
        &&& post.identity == pre.identity
        &&& post.description == pre.description
    }

    /// Store the context, truncating silently to the buffer width and
    /// recording the stored length. Bytes past the stored length keep
    /// their old values.
    pub fn set_context(&mut self, context: &[u8])
        requires
            old(self).wf(),
        ensures
            final(self).wf(),
            Self::context_set(*final(self), *old(self), context@),
    {
        let n: usize = if context.len() <= CONTEXT_BYTES {
            context.len()
        } else {
            CONTEXT_BYTES
        };
        let mut i: usize = 0;
        while i < n
            invariant
                i <= n,
                n == Self::stored_context_len(context@),
                n <= context@.len(),
                old(self).context@.len() == CONTEXT_BYTES,
                self.context@.len() == CONTEXT_BYTES,
                n <= CONTEXT_BYTES,
                self.context@ == context@.take(i as int) + old(self).context@.skip(i as int),
                self.ui_version == old(self).ui_version,
                self.ui_tick == old(self).ui_tick,
                self.avatar == old(self).avatar,
                self.name == old(self).name,
                self.camera == old(self).camera,
                self.identity == old(self).identity,
                self.context_len == old(self).context_len,
                self.description == old(self).description,
            decreases n - i,
        {
            self.context[i] = context[i];
            i = i + 1;
            proof {
                assert(self.context@ =~= context@.take(i as int) + old(self).context@.skip(
                    i as int,
                ));
            }
        }
        self.context_len = n as u32;
    }

    /// `post` is `pre` with the identity buffer re-encoded from `text`
    /// (truncated to its width, zero-terminated) and every other field
    /// unchanged.
    pub open spec fn identity_set(post: LinkedMem, pre: LinkedMem, text: Seq<char>) -> bool {
        &&& post.identity@ == crate::wide::utf16_of(text).take(
            crate::wide::copied_len(text, IDENTITY_UNITS as int),
        ) + seq![0u16] + pre.identity@.skip(
            crate::wide::copied_len(text, IDENTITY_UNITS as int) + 1,
        )
        &&& post.ui_version == pre.ui_version
        &&& post.ui_tick == pre.ui_tick
        &&& post.avatar == pre.avatar
        &&& post.name == pre.name
        &&& post.camera == pre.camera
        &&& post.context_len == pre.context_len
        &&& post.context == pre.context
        &&& post.description == pre.description
    }

    /// Encode the identity into its fixed buffer, truncating silently.
    pub fn set_identity(&mut self, identity: &str)
        requires
            old(self).wf(),
        ensures
            final(self).wf(),
            Self::identity_set(*final(self), *old(self), identity@),
    {
        crate::wide::copy(&mut self.identity, identity);
    }

    /// The tick after one more frame: incremented, wrapping to zero at the
    /// numeric limit.
    pub open spec fn next_tick(t: u32) -> u32 {
        if t == u32::MAX {
            0u32
        } else {
            (t + 1) as u32
        }
    }

    /// `post` is `pre` one frame later: the tick incremented with
    /// wraparound, the given poses stored, every other field unchanged.
    pub open spec fn frame_advanced(
        post: LinkedMem,
        pre: LinkedMem,
        avatar: Position,
        camera: Position,
    ) -> bool {
        &&& post.ui_tick == Self::next_tick(pre.ui_tick)
        &&& post.avatar == avatar
        &&& post.camera == camera
        &&& post.ui_version == pre.ui_version
        &&& post.name == pre.name
        &&& post.identity == pre.identity
        &&& post.context_len == pre.context_len
        &&& post.context == pre.context
        &&& post.description == pre.description
    }

    /// Advance one frame: bump the wrapping tick and store the new poses.
    pub fn update(&mut self, avatar: Position, camera: Position)
        ensures
            Self::frame_advanced(*final(self), *old(self), avatar, camera),
            old(self).ui_tick == u32::MAX ==> final(self).ui_tick == 0,
            old(self).wf() ==> final(self).wf(),
    {
        self.ui_tick = if self.ui_tick == u32::MAX {
            0
        } else {
            self.ui_tick + 1
        };
        self.avatar = avatar;
        self.camera = camera;
    }
}

/// Little-endian bytes of a sequence of UTF-16 code units.
pub open spec fn le2_seq(s: Seq<u16>) -> Seq<u8>
    decreases s.len(),
{
    if s.len() == 0 {
        Seq::empty()
    } else {
        vstd::bytes::spec_u16_to_le_bytes(s[0]) + le2_seq(s.drop_first())
    }
}

/// Little-endian bytes of a sequence of 32-bit words.
pub open spec fn le4_seq(s: Seq<u32>) -> Seq<u8>
    decreases s.len(),
{
    if s.len() == 0 {
        Seq::empty()
    } else {
        vstd::bytes::spec_u32_to_le_bytes(s[0]) + le4_seq(s.drop_first())
    }
}

/// The nine words of a position, in protocol order.
pub open spec fn words_of(p: Position) -> Seq<u32> {
    p.position@ + p.front@ + p.top@
}

/// The exact byte image of the shared struct: protocol field order,
/// little-endian words, two bytes per UTF-16 unit.
pub open spec fn layout_bytes(m: LinkedMem) -> Seq<u8> {
    vstd::bytes::spec_u32_to_le_bytes(m.ui_version) + vstd::bytes::spec_u32_to_le_bytes(m.ui_tick)
        + le4_seq(words_of(m.avatar)) + le2_seq(m.name@) + le4_seq(words_of(m.camera)) + le2_seq(
        m.identity@,
    ) + vstd::bytes::spec_u32_to_le_bytes(m.context_len) + m.context@ + le2_seq(m.description@)
}

proof fn lemma_le2_seq_push(s: Seq<u16>, x: u16)
    ensures
        le2_seq(s.push(x)) == le2_seq(s) + vstd::bytes::spec_u16_to_le_bytes(x),
    decreases s.len(),
{
    if s.len() == 0 {
        assert(s.push(x)[0] == x);
        assert(s.push(x).drop_first() =~= Seq::<u16>::empty());
        assert(le2_seq(s.push(x)) == vstd::bytes::spec_u16_to_le_bytes(x) + le2_seq(
            Seq::<u16>::empty(),
        ));
        assert(vstd::bytes::spec_u16_to_le_bytes(x) + Seq::<u8>::empty()
            =~= vstd::bytes::spec_u16_to_le_bytes(x));
        assert(le2_seq(s) + vstd::bytes::spec_u16_to_le_bytes(x)
            =~= vstd::bytes::spec_u16_to_le_bytes(x));
    } else {
        assert(s.push(x)[0] == s[0]);
        assert(s.push(x).drop_first() =~= s.drop_first().push(x));
        lemma_le2_seq_push(s.drop_first(), x);
        assert(le2_seq(s.push(x)) == vstd::bytes::spec_u16_to_le_bytes(s[0]) + (le2_seq(
            s.drop_first(),
        ) + vstd::bytes::spec_u16_to_le_bytes(x)));
        assert(vstd::bytes::spec_u16_to_le_bytes(s[0]) + (le2_seq(s.drop_first())
            + vstd::bytes::spec_u16_to_le_bytes(x)) =~= (vstd::bytes::spec_u16_to_le_bytes(s[0])
            + le2_seq(s.drop_first())) + vstd::bytes::spec_u16_to_le_bytes(x));
    }
}

proof fn lemma_le4_seq_push(s: Seq<u32>, x: u32)
    ensures
        le4_seq(s.push(x)) == le4_seq(s) + vstd::bytes::spec_u32_to_le_bytes(x),
    decreases s.len(),
{
    if s.len() == 0 {
        assert(s.push(x)[0] == x);
        assert(s.push(x).drop_first() =~= Seq::<u32>::empty());
        assert(le4_seq(s.push(x)) == vstd::bytes::spec_u32_to_le_bytes(x) + le4_seq(
            Seq::<u32>::empty(),
        ));
        assert(vstd::bytes::spec_u32_to_le_bytes(x) + Seq::<u8>::empty()
            =~= vstd::bytes::spec_u32_to_le_bytes(x));
        assert(le4_seq(s) + vstd::bytes::spec_u32_to_le_bytes(x)
            =~= vstd::bytes::spec_u32_to_le_bytes(x));
    } else {
        assert(s.push(x)[0] == s[0]);
        assert(s.push(x).drop_first() =~= s.drop_first().push(x));
        lemma_le4_seq_push(s.drop_first(), x);
        assert(le4_seq(s.push(x)) == vstd::bytes::spec_u32_to_le_bytes(s[0]) + (le4_seq(
            s.drop_first(),
        ) + vstd::bytes::spec_u32_to_le_bytes(x)));
        assert(vstd::bytes::spec_u32_to_le_bytes(s[0]) + (le4_seq(s.drop_first())
            + vstd::bytes::spec_u32_to_le_bytes(x)) =~= (vstd::bytes::spec_u32_to_le_bytes(s[0])
            + le4_seq(s.drop_first())) + vstd::bytes::spec_u32_to_le_bytes(x));
    }
}

proof fn lemma_le2_seq_len(s: Seq<u16>)
    ensures
        le2_seq(s).len() == 2 * s.len(),
    decreases s.len(),
{
    vstd::bytes::lemma_auto_spec_u16_to_from_le_bytes();
    if s.len() == 0 {
    } else {
        lemma_le2_seq_len(s.drop_first());
    }
}

proof fn lemma_le4_seq_len(s: Seq<u32>)
    ensures
        le4_seq(s).len() == 4 * s.len(),
    decreases s.len(),
{
    vstd::bytes::lemma_auto_spec_u32_to_from_le_bytes();
    if s.len() == 0 {
    } else {
        lemma_le4_seq_len(s.drop_first());
    }
}

fn push_word(out: &mut Vec<u8>, x: u32)
    ensures
        final(out)@ == old(out)@ + vstd::bytes::spec_u32_to_le_bytes(x),
{
    let mut b = vstd::bytes::u32_to_le_bytes(x);
    out.append(&mut b);
}

fn push_units(out: &mut Vec<u8>, s: &Vec<u16>)
    ensures
        final(out)@ == old(out)@ + le2_seq(s@),
{
    let mut i: usize = 0;
    proof {
        assert(s@.take(0) =~= Seq::<u16>::empty());
        assert(out@ + le2_seq(Seq::<u16>::empty()) =~= out@);
    }
    while i < s.len()
        invariant
            i <= s@.len(),
            out@ == old(out)@ + le2_seq(s@.take(i as int)),
        decreases s@.len() - i,
    {
        proof {
            assert(s@.take(i + 1) =~= s@.take(i as int).push(s@[i as int]));
            lemma_le2_seq_push(s@.take(i as int), s@[i as int]);
        }
        let mut b = vstd::bytes::u16_to_le_bytes(s[i]);
        out.append(&mut b);
        i = i + 1;
        proof {
            assert(out@ =~= old(out)@ + le2_seq(s@.take(i as int)));
        }
    }
    proof {
        assert(s@.take(s@.len() as int) =~= s@);
    }
}

fn push_triple(out: &mut Vec<u8>, a: &[u32; 3])
    ensures
        final(out)@ == old(out)@ + le4_seq(a@),
{
    let mut i: usize = 0;
    proof {
        assert(a@.take(0) =~= Seq::<u32>::empty());
        assert(out@ + le4_seq(Seq::<u32>::empty()) =~= out@);
    }
    while i < 3
        invariant
            i <= 3,
            a@.len() == 3,
            out@ == old(out)@ + le4_seq(a@.take(i as int)),
        decreases 3 - i,
    {
        proof {
            assert(a@.take(i + 1) =~= a@.take(i as int).push(a@[i as int]));
            lemma_le4_seq_push(a@.take(i as int), a@[i as int]);
        }
        push_word(out, a[i]);
        i = i + 1;
        proof {
            assert(out@ =~= old(out)@ + le4_seq(a@.take(i as int)));
        }
    }
    proof {
        assert(a@.take(3) =~= a@);
    }
}

proof fn lemma_le4_seq_append(a: Seq<u32>, b: Seq<u32>)
    ensures
        le4_seq(a + b) == le4_seq(a) + le4_seq(b),
    decreases a.len(),
{
    if a.len() == 0 {
        assert(a + b =~= b);
        assert(le4_seq(a) + le4_seq(b) =~= le4_seq(b));
    } else {
        assert((a + b)[0] == a[0]);
        assert((a + b).drop_first() =~= a.drop_first() + b);
        lemma_le4_seq_append(a.drop_first(), b);
        assert(le4_seq(a + b) == vstd::bytes::spec_u32_to_le_bytes(a[0]) + (le4_seq(
            a.drop_first(),
        ) + le4_seq(b)));
        assert(vstd::bytes::spec_u32_to_le_bytes(a[0]) + (le4_seq(a.drop_first()) + le4_seq(b))
            =~= (vstd::bytes::spec_u32_to_le_bytes(a[0]) + le4_seq(a.drop_first())) + le4_seq(b));
    }
}

fn push_position(out: &mut Vec<u8>, p: &Position)
    ensures
        final(out)@ == old(out)@ + le4_seq(words_of(*p)),
{
    push_triple(out, &p.position);
    push_triple(out, &p.front);
    push_triple(out, &p.top);
    proof {
        lemma_le4_seq_append(p.position@, p.front@);
        lemma_le4_seq_append(p.position@ + p.front@, p.top@);
        assert(out@ =~= old(out)@ + le4_seq(words_of(*p)));
    }
}

fn push_bytes(out: &mut Vec<u8>, s: &Vec<u8>)
    ensures
        final(out)@ == old(out)@ + s@,
{
    let mut i: usize = 0;
    while i < s.len()
        invariant
            i <= s@.len(),
            out@ == old(out)@ + s@.take(i as int),
        decreases s@.len() - i,
    {
        out.push(s[i]);
        i = i + 1;
        proof {
            assert(out@ =~= old(out)@ + s@.take(i as int));
        }
    }
    proof {
        assert(s@.take(s@.len() as int) =~= s@);
    }
}

impl LinkedMem {
    /// Encode the whole struct into its exact protocol byte image.
    pub fn to_bytes(&self) -> (b: Vec<u8>)
        requires
            self.wf(),
        ensures
            b@ == layout_bytes(*self),
            b@.len() == LINKED_MEM_BYTES,
    {
        let mut out: Vec<u8> = Vec::new();
        push_word(&mut out, self.ui_version);
        push_word(&mut out, self.ui_tick);
        push_position(&mut out, &self.avatar);
        push_units(&mut out, &self.name);
        push_position(&mut out, &self.camera);
        push_units(&mut out, &self.identity);
        push_word(&mut out, self.context_len);
        push_bytes(&mut out, &self.context);
        push_units(&mut out, &self.description);
        proof {
            assert(out@ =~= layout_bytes(*self));
            vstd::bytes::lemma_auto_spec_u32_to_from_le_bytes();
            lemma_le4_seq_len(words_of(self.avatar));
            lemma_le4_seq_len(words_of(self.camera));
            lemma_le2_seq_len(self.name@);
            lemma_le2_seq_len(self.identity@);
            lemma_le2_seq_len(self.description@);
        }
        out
    }
}

fn read_word(b: &[u8], off: usize) -> (x: u32)
    requires
        off + 4 <= b@.len(),
    ensures
        vstd::bytes::spec_u32_to_le_bytes(x) == b@.subrange(off as int, off as int + 4),
{
    let blen = b.len();
    assert(off + 4 <= blen);
    let s = vstd::slice::slice_subrange(b, off, off + 4);
    let x = vstd::bytes::u32_from_le_bytes(s);
    proof {
        vstd::bytes::lemma_auto_spec_u32_to_from_le_bytes();
    }
    x
}

fn read_units(b: &[u8], off: usize, count: usize) -> (v: Vec<u16>)
    requires
        off + 2 * count <= b@.len(),
    ensures
        v@.len() == count,
        le2_seq(v@) == b@.subrange(off as int, off as int + 2 * count),
{
    let blen = b.len();
    let mut v: Vec<u16> = Vec::new();
    let mut i: usize = 0;
    proof {
        assert(le2_seq(v@) =~= b@.subrange(off as int, off as int));
    }
    while i < count
        invariant
            i <= count,
            blen == b@.len(),
            off + 2 * count <= blen,
            v@.len() == i,
            le2_seq(v@) == b@.subrange(off as int, off as int + 2 * i),
        decreases count - i,
    {
        let s = vstd::slice::slice_subrange(b, off + 2 * i, off + 2 * i + 2);
        let x = vstd::bytes::u16_from_le_bytes(s);
        proof {
            vstd::bytes::lemma_auto_spec_u16_to_from_le_bytes();
            lemma_le2_seq_push(v@, x);
        }
        v.push(x);
        i = i + 1;
        proof {
            assert(le2_seq(v@) =~= b@.subrange(off as int, off as int + 2 * i));
        }
    }
    v
}

fn read_triple(b: &[u8], off: usize) -> (a: [u32; 3])
    requires
        off + 12 <= b@.len(),
    ensures
        le4_seq(a@) == b@.subrange(off as int, off as int + 12),
{
    let len = b.len();
    assert(off + 12 <= len);
    let w0 = read_word(b, off);
    let w1 = read_word(b, off + 4);
    let w2 = read_word(b, off + 8);
    let a = [w0, w1, w2];
    proof {
        assert(a@ =~= seq![w0, w1, w2]);
        assert(seq![w0, w1, w2].drop_first() =~= seq![w1, w2]);
        assert(seq![w1, w2].drop_first() =~= seq![w2]);
        assert(seq![w2].drop_first() =~= Seq::<u32>::empty());
        assert(le4_seq(Seq::<u32>::empty()) =~= Seq::<u8>::empty());
        assert(le4_seq(seq![w2]) == vstd::bytes::spec_u32_to_le_bytes(w2) + le4_seq(
            Seq::<u32>::empty(),
        ));
        assert(le4_seq(seq![w1, w2]) == vstd::bytes::spec_u32_to_le_bytes(w1) + le4_seq(
            seq![w2],
        ));
        assert(le4_seq(a@) == vstd::bytes::spec_u32_to_le_bytes(w0) + le4_seq(seq![w1, w2]));
        assert(le4_seq(a@) =~= b@.subrange(off as int, off as int + 12));
    }
    a
}

fn read_position(b: &[u8], off: usize) -> (p: Position)
    requires
        off + 36 <= b@.len(),
    ensures
        le4_seq(words_of(p)) == b@.subrange(off as int, off as int + 36),
{
    let len = b.len();
    assert(off + 36 <= len);
    let p = Position {
        position: read_triple(b, off),
        front: read_triple(b, off + 12),
        top: read_triple(b, off + 24),
    };
    proof {
        lemma_le4_seq_append(p.position@, p.front@);
        lemma_le4_seq_append(p.position@ + p.front@, p.top@);
        assert(le4_seq(words_of(p)) =~= b@.subrange(off as int, off as int + 36));
    }
    p
}

impl LinkedMem {
    /// Decode a protocol byte image into a struct. The result is exactly
    /// the struct whose byte image is the input.
    pub fn from_bytes(b: &[u8]) -> (m: LinkedMem)
        requires
            b@.len() == LINKED_MEM_BYTES,
        ensures
            m.wf(),
            layout_bytes(m) == b@,
    {
        let ui_version = read_word(b, 0);
        let ui_tick = read_word(b, 4);
        let avatar = read_position(b, 8);
        let name = read_units(b, 44, NAME_UNITS);
        let camera = read_position(b, 556);
        let identity = read_units(b, 592, IDENTITY_UNITS);
        let context_len = read_word(b, 1104);
        let context = vstd::slice::slice_to_vec(vstd::slice::slice_subrange(b, 1108, 1364));
        let description = read_units(b, 1364, DESCRIPTION_UNITS);
        let m = LinkedMem {
            ui_version,
            ui_tick,
            avatar,
            name,
            camera,
            identity,
            context_len,
            context,
            description,
        };
        proof {
            assert(layout_bytes(m) =~= b@);
        }
        m
    }
}

proof fn lemma_le2_seq_inj(s1: Seq<u16>, s2: Seq<u16>)
    requires
        s1.len() == s2.len(),
        le2_seq(s1) == le2_seq(s2),
    ensures
        s1 == s2,
    decreases s1.len(),
{
    vstd::bytes::lemma_auto_spec_u16_to_from_le_bytes();
    if s1.len() == 0 {
        assert(s1 =~= s2);
    } else {
        lemma_le2_seq_len(s1.drop_first());
        lemma_le2_seq_len(s2.drop_first());
        assert(vstd::bytes::spec_u16_to_le_bytes(s1[0]) =~= le2_seq(s1).subrange(0, 2));
        assert(vstd::bytes::spec_u16_to_le_bytes(s2[0]) =~= le2_seq(s2).subrange(0, 2));
        assert(s1[0] == vstd::bytes::spec_u16_from_le_bytes(
            vstd::bytes::spec_u16_to_le_bytes(s1[0]),
        ));
        assert(s1[0] == s2[0]);
        assert(le2_seq(s1.drop_first()) =~= le2_seq(s1).subrange(2, le2_seq(s1).len() as int));
        assert(le2_seq(s2.drop_first()) =~= le2_seq(s2).subrange(2, le2_seq(s2).len() as int));
        lemma_le2_seq_inj(s1.drop_first(), s2.drop_first());
        assert forall|j: int| 0 <= j < s1.len() implies s1[j] == s2[j] by {
            if j > 0 {
                assert(s1[j] == s1.drop_first()[j - 1]);
                assert(s2[j] == s2.drop_first()[j - 1]);
            }
        }
        assert(s1 =~= s2);
    }
}

proof fn lemma_le4_seq_inj(s1: Seq<u32>, s2: Seq<u32>)
    requires
        s1.len() == s2.len(),
        le4_seq(s1) == le4_seq(s2),
    ensures
        s1 == s2,
    decreases s1.len(),
{
    vstd::bytes::lemma_auto_spec_u32_to_from_le_bytes();
    if s1.len() == 0 {
        assert(s1 =~= s2);
    } else {
        lemma_le4_seq_len(s1.drop_first());
        lemma_le4_seq_len(s2.drop_first());
        assert(vstd::bytes::spec_u32_to_le_bytes(s1[0]) =~= le4_seq(s1).subrange(0, 4));
        assert(vstd::bytes::spec_u32_to_le_bytes(s2[0]) =~= le4_seq(s2).subrange(0, 4));
        assert(s1[0] == vstd::bytes::spec_u32_from_le_bytes(
            vstd::bytes::spec_u32_to_le_bytes(s1[0]),
        ));
        assert(s1[0] == s2[0]);
        assert(le4_seq(s1.drop_first()) =~= le4_seq(s1).subrange(4, le4_seq(s1).len() as int));
        assert(le4_seq(s2.drop_first()) =~= le4_seq(s2).subrange(4, le4_seq(s2).len() as int));
        lemma_le4_seq_inj(s1.drop_first(), s2.drop_first());
        assert forall|j: int| 0 <= j < s1.len() implies s1[j] == s2[j] by {
            if j > 0 {
                assert(s1[j] == s1.drop_first()[j - 1]);
                assert(s2[j] == s2.drop_first()[j - 1]);
            }
        }
        assert(s1 =~= s2);
    }
}

proof fn lemma_layout_chunks(m: LinkedMem)
    requires
        m.wf(),
    ensures
        layout_bytes(m).subrange(0, 4) == vstd::bytes::spec_u32_to_le_bytes(m.ui_version),
        layout_bytes(m).subrange(4, 8) == vstd::bytes::spec_u32_to_le_bytes(m.ui_tick),
        layout_bytes(m).subrange(8, 44) == le4_seq(words_of(m.avatar)),
        layout_bytes(m).subrange(44, 556) == le2_seq(m.name@),
        layout_bytes(m).subrange(556, 592) == le4_seq(words_of(m.camera)),
        layout_bytes(m).subrange(592, 1104) == le2_seq(m.identity@),
        layout_bytes(m).subrange(1104, 1108) == vstd::bytes::spec_u32_to_le_bytes(m.context_len),
        layout_bytes(m).subrange(1108, 1364) == m.context@,
        layout_bytes(m).subrange(1364, 5460) == le2_seq(m.description@),
{
    vstd::bytes::lemma_auto_spec_u32_to_from_le_bytes();
    lemma_le4_seq_len(words_of(m.avatar));
    lemma_le4_seq_len(words_of(m.camera));
    lemma_le2_seq_len(m.name@);
    lemma_le2_seq_len(m.identity@);
    lemma_le2_seq_len(m.description@);
    assert(layout_bytes(m).subrange(0, 4) =~= vstd::bytes::spec_u32_to_le_bytes(m.ui_version));
    assert(layout_bytes(m).subrange(4, 8) =~= vstd::bytes::spec_u32_to_le_bytes(m.ui_tick));
    assert(layout_bytes(m).subrange(8, 44) =~= le4_seq(words_of(m.avatar)));
    assert(layout_bytes(m).subrange(44, 556) =~= le2_seq(m.name@));
    assert(layout_bytes(m).subrange(556, 592) =~= le4_seq(words_of(m.camera)));
    assert(layout_bytes(m).subrange(592, 1104) =~= le2_seq(m.identity@));
    assert(layout_bytes(m).subrange(1104, 1108) =~= vstd::bytes::spec_u32_to_le_bytes(
        m.context_len,
    ));
    assert(layout_bytes(m).subrange(1108, 1364) =~= m.context@);
    assert(layout_bytes(m).subrange(1364, 5460) =~= le2_seq(m.description@));
}

proof fn lemma_words_determine_position(p: Position, q: Position)
    requires
        words_of(p) == words_of(q),
    ensures
        p.position@ == q.position@,
        p.front@ == q.front@,
        p.top@ == q.top@,
{
    assert(p.position@ =~= words_of(p).subrange(0, 3));
    assert(p.front@ =~= words_of(p).subrange(3, 6));
    assert(p.top@ =~= words_of(p).subrange(6, 9));
    assert(q.position@ =~= words_of(q).subrange(0, 3));
    assert(q.front@ =~= words_of(q).subrange(3, 6));
    assert(q.top@ =~= words_of(q).subrange(6, 9));
}

/// Law: the byte image determines the struct. Two well-formed structs
/// with the same image agree on every field, so decoding an encoded
/// image recovers the encoded struct exactly.
pub proof fn lemma_layout_bytes_injective(a: LinkedMem, b: LinkedMem)
    requires
        a.wf(),
        b.wf(),
        layout_bytes(a) == layout_bytes(b),
    ensures
        a.ui_version == b.ui_version,
        a.ui_tick == b.ui_tick,
        a.avatar.position@ == b.avatar.position@,
        a.avatar.front@ == b.avatar.front@,
        a.avatar.top@ == b.avatar.top@,
        a.name@ == b.name@,
        a.camera.position@ == b.camera.position@,
        a.camera.front@ == b.camera.front@,
        a.camera.top@ == b.camera.top@,
        a.identity@ == b.identity@,
        a.context_len == b.context_len,
        a.context@ == b.context@,
        a.description@ == b.description@,
{
    vstd::bytes::lemma_auto_spec_u32_to_from_le_bytes();
    lemma_layout_chunks(a);
    lemma_layout_chunks(b);
    assert(a.ui_version == vstd::bytes::spec_u32_from_le_bytes(
        vstd::bytes::spec_u32_to_le_bytes(a.ui_version),
    ));
    assert(a.ui_tick == vstd::bytes::spec_u32_from_le_bytes(
        vstd::bytes::spec_u32_to_le_bytes(a.ui_tick),
    ));
    assert(a.context_len == vstd::bytes::spec_u32_from_le_bytes(
        vstd::bytes::spec_u32_to_le_bytes(a.context_len),
    ));
    lemma_le4_seq_inj(words_of(a.avatar), words_of(b.avatar));
    lemma_words_determine_position(a.avatar, b.avatar);
    lemma_le4_seq_inj(words_of(a.camera), words_of(b.camera));
    lemma_words_determine_position(a.camera, b.camera);
    lemma_le2_seq_inj(a.name@, b.name@);
    lemma_le2_seq_inj(a.identity@, b.identity@);
    lemma_le2_seq_inj(a.description@, b.description@);
}

} // verus!
