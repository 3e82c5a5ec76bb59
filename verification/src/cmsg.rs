//! Ancillary ("control") messages that carry a file descriptor across a
//! Unix-domain socket (`SCM_RIGHTS`).
//!
//! A descriptor is only meaningful inside the process that owns it, so it
//! cannot be sent as a plain number: the kernel must duplicate it into the
//! receiver, which it does for a control message of level `SOL_SOCKET` and
//! type `SCM_RIGHTS`. The sender frames such a message around its own
//! descriptor; the kernel hands the receiver a message of the same shape
//! around the descriptor it installed there. This module lays such a message
//! out byte by byte and reads the descriptor back out of a received one.
//!
//! The layout is that of `struct cmsghdr` on Linux and Android: a
//! word-sized `cmsg_len`, a four-byte `cmsg_level` and a four-byte
//! `cmsg_type`, followed by the payload; lengths are rounded up to a
//! multiple of the word size. Word size and byte order are those of the
//! machine and come in as a `CmsgLayout`.

use crate::wire::{
    decode_i32_at, encode_i32, encode_u32, encode_u64, i32_bytes, i32_from, lemma_i32_roundtrip,
    lemma_u32_roundtrip, lemma_u64_roundtrip, u32_bytes, u32_from, u64_bytes, u64_from, Endian,
};
use vstd::arithmetic::div_mod::{lemma_fundamental_div_mod, lemma_mod_multiples_basic};
use vstd::prelude::*;

verus! {

/// Size of the payload of a message that carries one descriptor (a `c_int`).
pub const FD_PAYLOAD_LEN: u32 = 4;

/// The machine facts a control message depends on: the size of a word
/// (`usize`, which is also the width of `cmsg_len` and the alignment of
/// lengths), the byte order, and the platform's values of `SOL_SOCKET` (the
/// level of a descriptor-passing message) and `SCM_RIGHTS` (its type).
#[derive(Debug, Clone, Copy, PartialEq, Eq, Structural)]
pub struct CmsgLayout {
    pub word_size: usize,
    pub order: Endian,
    pub sol_socket: i32,
    pub scm_rights: i32,
}

impl CmsgLayout {
    /// A word is four or eight bytes.
    pub open spec fn wf(self) -> bool {
        self.word_size == 4 || self.word_size == 8
    }

    /// Size of `struct cmsghdr`: `cmsg_len`, `cmsg_level`, `cmsg_type`.
    pub open spec fn spec_header_len(self) -> int {
        self.word_size + 8
    }

    /// The layout of a machine with words of `word_size` bytes, byte order
    /// `order`, and the given `SOL_SOCKET` and `SCM_RIGHTS` values; `None`
    /// unless a word is four or eight bytes.
    pub fn new(word_size: usize, order: Endian, sol_socket: i32, scm_rights: i32) -> (layout:
        Option<CmsgLayout>)
        ensures
            layout is Some <==> (word_size == 4 || word_size == 8),
            layout is Some ==> layout->0 == (CmsgLayout { word_size, order, sol_socket, scm_rights }),
    {
        if word_size == 4 || word_size == 8 {
            Some(CmsgLayout { word_size, order, sol_socket, scm_rights })
        } else {
            None
        }
    }

    /// Size of `struct cmsghdr`.
    pub fn header_len(&self) -> (n: usize)
        requires
            self.wf(),
        ensures
            n == self.spec_header_len(),
    {
        self.word_size + 8
    }
}

/// `len` rounded up to the next multiple of the word size.
pub open spec fn spec_cmsg_align(len: int, layout: CmsgLayout) -> int {
    (len + layout.word_size - 1) / (layout.word_size as int) * layout.word_size
}

/// Value of the `cmsg_len` field for a payload of `len` bytes
/// (what `CMSG_LEN` computes).
pub open spec fn spec_cmsg_len(len: int, layout: CmsgLayout) -> int {
    spec_cmsg_align(layout.spec_header_len(), layout) + len
}

/// Bytes a message with a payload of `len` bytes occupies in a control
/// buffer, padding included (what `CMSG_SPACE` computes).
pub open spec fn spec_cmsg_space(len: int, layout: CmsgLayout) -> int {
    spec_cmsg_align(len, layout) + spec_cmsg_align(layout.spec_header_len(), layout)
}

/// The bytes of a word-sized number.
pub open spec fn word_bytes(x: int, layout: CmsgLayout) -> Seq<u8> {
    if layout.word_size == 8 {
        u64_bytes(x as u64, layout.order)
    } else {
        u32_bytes(x as u32, layout.order)
    }
}

/// The header bytes of a message: `cmsg_len`, `cmsg_level`, `cmsg_type`.
pub open spec fn header_bytes(len: int, level: i32, kind: i32, layout: CmsgLayout) -> Seq<u8> {
    word_bytes(len, layout) + i32_bytes(level, layout.order) + i32_bytes(kind, layout.order)
}

/// The whole control buffer that carries descriptor `fd`: a header with the
/// layout's `SOL_SOCKET` level and `SCM_RIGHTS` type, the descriptor, and zero padding up to
/// `CMSG_SPACE(4)` bytes.
pub open spec fn fd_control_bytes(fd: i32, layout: CmsgLayout) -> Seq<u8> {
    header_bytes(
        spec_cmsg_len(FD_PAYLOAD_LEN as int, layout),
        layout.sol_socket,
        layout.scm_rights,
        layout,
    ) + i32_bytes(fd, layout.order) + Seq::new(
        (spec_cmsg_space(FD_PAYLOAD_LEN as int, layout) - spec_cmsg_len(
            FD_PAYLOAD_LEN as int,
            layout,
        )) as nat,
        |i: int| 0u8,
    )
}

/// What a one-descriptor message for `fd` holds, field by field, counted
/// from the machine's word size `w`: `w + 16` or `w + 12` bytes in all (24 or
/// 16), a `cmsg_len` word equal to `w + 12` (`CMSG_LEN(4)`), the level
/// `SOL_SOCKET` at `w`, the type `SCM_RIGHTS` at `w + 4`, the descriptor at
/// `w + 8`, and zeros after it.
pub open spec fn fd_control_fields(b: Seq<u8>, fd: i32, layout: CmsgLayout) -> bool {
    let w = layout.word_size as int;
    &&& b.len() == (if w == 4 {
        16int
    } else {
        24int
    })
    &&& (if w == 8 {
        u64_from(b.subrange(0, 8), layout.order) == w + 12
    } else {
        u32_from(b.subrange(0, 4), layout.order) == w + 12
    })
    &&& i32_from(b.subrange(w, w + 4), layout.order) == layout.sol_socket
    &&& i32_from(b.subrange(w + 4, w + 8), layout.order) == layout.scm_rights
    &&& i32_from(b.subrange(w + 8, w + 12), layout.order) == fd
    &&& forall|i: int| w + 12 <= i < b.len() ==> b[i] == 0u8
}

/// Whether a received control buffer whose reported length is `controllen`
/// holds a first message header (what `CMSG_FIRSTHDR` tests).
pub open spec fn spec_has_first_header(controllen: int, layout: CmsgLayout) -> bool {
    controllen >= layout.spec_header_len()
}

/// `len` rounded up to the next multiple of the word size (`CMSG_ALIGN`).
pub fn cmsg_align(len: usize, layout: &CmsgLayout) -> (r: usize)
    requires
        layout.wf(),
        len <= usize::MAX - 7,
    ensures
        r == spec_cmsg_align(len as int, *layout),
        r % layout.word_size == 0,
        len <= r < len + layout.word_size,
{
    if layout.word_size == 4 {
        (len + 3) / 4 * 4
    } else {
        (len + 7) / 8 * 8
    }
}

/// Value of the `cmsg_len` field for a payload of `len` bytes (`CMSG_LEN`).
pub fn cmsg_len(len: u32, layout: &CmsgLayout) -> (r: u32)
    requires
        layout.wf(),
        len + layout.spec_header_len() <= u32::MAX,
    ensures
        r == spec_cmsg_len(len as int, *layout),
        r == len + layout.word_size + 8,
{
    let header = cmsg_align(layout.header_len(), layout);
    assert(header == layout.spec_header_len()) by {
        if layout.word_size == 4 {
            assert(header % 4 == 0 && 12 <= header < 16);
        } else {
            assert(header % 8 == 0 && 16 <= header < 24);
        }
    }
    header as u32 + len
}

/// Room a message with a payload of `len` bytes takes in a control buffer,
/// padding included (`CMSG_SPACE`).
pub fn cmsg_space(len: u32, layout: &CmsgLayout) -> (r: u32)
    requires
        layout.wf(),
        spec_cmsg_space(len as int, *layout) <= u32::MAX,
    ensures
        r == spec_cmsg_space(len as int, *layout),
        len + layout.word_size + 8 <= r < len + 2 * layout.word_size + 8,
        (r as int) % (layout.word_size as int) == 0,
{
    proof {
        lemma_cmsg_len_within_space(len as int, *layout);
    }
    let payload = cmsg_align(len as usize, layout);
    let header = cmsg_align(layout.header_len(), layout);
    (payload + header) as u32
}

/// Whether a received control buffer whose reported length is `controllen`
/// holds a first message header (`CMSG_FIRSTHDR` is not null).
pub fn has_first_header(controllen: usize, layout: &CmsgLayout) -> (r: bool)
    requires
        layout.wf(),
    ensures
        r == spec_has_first_header(controllen as int, *layout),
        r == (controllen >= layout.word_size + 8),
{
    controllen >= layout.header_len()
}

/// The bytes of the word-sized number `x`.
fn encode_word(x: u32, layout: &CmsgLayout) -> (bytes: Vec<u8>)
    requires
        layout.wf(),
    ensures
        bytes@ == word_bytes(x as int, *layout),
        bytes@.len() == layout.word_size,
{
    if layout.word_size == 8 {
        encode_u64(x as u64, layout.order)
    } else {
        encode_u32(x, layout.order)
    }
}

/// The control buffer that hands descriptor `fd` to the peer: the buffer
/// starts zeroed, the first header gets length `CMSG_LEN(4)`, level
/// `SOL_SOCKET` and type `SCM_RIGHTS`, and the descriptor goes right after
/// the header. Its length is `CMSG_SPACE(4)`, the `msg_controllen` to send.
pub fn fd_control_message(fd: i32, layout: &CmsgLayout) -> (control: Vec<u8>)
    requires
        layout.wf(),
    ensures
        control@ == fd_control_bytes(fd, *layout),
        control@.len() == spec_cmsg_space(FD_PAYLOAD_LEN as int, *layout),
        fd_control_fields(control@, fd, *layout),
{
    proof {
        lemma_fd_message_sizes(*layout);
    }
    let len = cmsg_len(FD_PAYLOAD_LEN, layout);
    let space = cmsg_space(FD_PAYLOAD_LEN, layout) as usize;
    let mut control = encode_word(len, layout);
    let mut level = encode_i32(layout.sol_socket, layout.order);
    control.append(&mut level);
    let mut kind = encode_i32(layout.scm_rights, layout.order);
    control.append(&mut kind);
    let mut data = encode_i32(fd, layout.order);
    control.append(&mut data);
    let ghost filled = control@;
    let ghost framed = len as int;
    assert(filled.len() == framed);
    while control.len() < space
        invariant
            space == spec_cmsg_space(FD_PAYLOAD_LEN as int, *layout),
            framed == spec_cmsg_len(FD_PAYLOAD_LEN as int, *layout),
            framed <= control@.len() <= space,
            control@.subrange(0, framed) == filled,
            forall|i: int| framed <= i < control@.len() ==> control@[i] == 0u8,
        decreases space - control.len(),
    {
        control.push(0u8);
    }
    assert(control@ =~= fd_control_bytes(fd, *layout));
    proof {
        lemma_fd_control_fields(fd, *layout);
    }
    control
}

/// The descriptor carried by a received control buffer: `None` when the
/// kernel reported no message header (`controllen` below the header size),
/// otherwise the `c_int` right after the first header (`CMSG_DATA`).
/// Level and type are not checked.
pub fn fd_from_control(control: &[u8], controllen: usize, layout: &CmsgLayout) -> (fd: Option<
    i32,
>)
    requires
        layout.wf(),
        spec_has_first_header(controllen as int, *layout) ==> control@.len()
            >= layout.spec_header_len() + FD_PAYLOAD_LEN,
    ensures
        fd is Some <==> spec_has_first_header(controllen as int, *layout),
        fd is Some <==> controllen >= layout.word_size + 8,
        fd is Some ==> fd->0 == i32_from(
            control@.subrange(layout.word_size + 8, layout.word_size + 12),
            layout.order,
        ),
        fd is Some ==> fd->0 == i32_from(
            control@.subrange(
                layout.spec_header_len(),
                layout.spec_header_len() + FD_PAYLOAD_LEN,
            ),
            layout.order,
        ),
{
    if has_first_header(controllen, layout) {
        decode_i32_at(control, layout.header_len(), layout.order)
    } else {
        None
    }
}

/// The sizes of a one-descriptor message: `CMSG_LEN(4)` is the header size
/// plus four, and `CMSG_SPACE(4)` is 16 bytes with four-byte words and 24
/// with eight-byte words.
pub proof fn lemma_fd_message_sizes(layout: CmsgLayout)
    requires
        layout.wf(),
    ensures
        spec_cmsg_len(FD_PAYLOAD_LEN as int, layout) == layout.spec_header_len() + FD_PAYLOAD_LEN,
        spec_cmsg_space(FD_PAYLOAD_LEN as int, layout) == if layout.word_size == 4 {
            16int
        } else {
            24int
        },
{
    if layout.word_size == 4 {
        assert(spec_cmsg_align(12, layout) == 12);
        assert(spec_cmsg_align(4, layout) == 4);
    } else {
        assert(spec_cmsg_align(16, layout) == 16);
        assert(spec_cmsg_align(4, layout) == 8);
    }
}

/// A control buffer framed around descriptor `fd` carries `fd` right after
/// its header, which is where `fd_from_control` reads it.
pub proof fn lemma_fd_control_roundtrip(fd: i32, layout: CmsgLayout)
    requires
        layout.wf(),
    ensures
        fd_control_bytes(fd, layout).len() >= layout.spec_header_len() + FD_PAYLOAD_LEN,
        i32_from(
            fd_control_bytes(fd, layout).subrange(
                layout.spec_header_len(),
                layout.spec_header_len() + FD_PAYLOAD_LEN,
            ),
            layout.order,
        ) == fd,
{
    lemma_fd_message_sizes(layout);
    lemma_i32_roundtrip(fd, layout.order);
    lemma_i32_roundtrip(layout.sol_socket, layout.order);
    let h = layout.spec_header_len();
    assert(word_bytes(spec_cmsg_len(FD_PAYLOAD_LEN as int, layout), layout).len()
        == layout.word_size);
    assert(fd_control_bytes(fd, layout).subrange(h, h + 4) =~= i32_bytes(fd, layout.order));
}

/// The framed message for `fd` decodes field by field to `CMSG_LEN(4)`,
/// the layout's `SOL_SOCKET` level, its `SCM_RIGHTS` type, the descriptor,
/// and zero padding, in the layout's byte order.
pub proof fn lemma_fd_control_fields(fd: i32, layout: CmsgLayout)
    requires
        layout.wf(),
    ensures
        fd_control_fields(fd_control_bytes(fd, layout), fd, layout),
{
    lemma_fd_message_sizes(layout);
    let o = layout.order;
    let w = layout.word_size as int;
    let b = fd_control_bytes(fd, layout);
    lemma_i32_roundtrip(fd, o);
    lemma_i32_roundtrip(layout.sol_socket, o);
    lemma_i32_roundtrip(layout.scm_rights, o);
    if w == 8 {
        lemma_u64_roundtrip(20, o);
        assert(b.subrange(0, 8) =~= u64_bytes(20, o));
    } else {
        lemma_u32_roundtrip(16, o);
        assert(b.subrange(0, 4) =~= u32_bytes(16, o));
    }
    assert(b.subrange(w, w + 4) =~= i32_bytes(layout.sol_socket, o));
    assert(b.subrange(w + 4, w + 8) =~= i32_bytes(layout.scm_rights, o));
    assert(b.subrange(w + 8, w + 12) =~= i32_bytes(fd, o));
}

/// A received buffer holds a first header exactly when its reported length
/// reaches the size of `struct cmsghdr`, a word plus eight bytes; there is no
/// upper limit.
pub proof fn lemma_first_header_threshold(controllen: int, layout: CmsgLayout)
    requires
        layout.wf(),
    ensures
        spec_has_first_header(controllen, layout) <==> controllen >= layout.word_size + 8,
{
}

/// `CMSG_ALIGN(n)` is the least multiple of the word size not below `n`.
pub proof fn lemma_cmsg_align_least_multiple(len: int, layout: CmsgLayout)
    requires
        layout.wf(),
        len >= 0,
    ensures
        spec_cmsg_align(len, layout) % (layout.word_size as int) == 0,
        len <= spec_cmsg_align(len, layout) < len + layout.word_size,
{
    let w = layout.word_size as int;
    let x = len + w - 1;
    lemma_fundamental_div_mod(x, w);
    lemma_mod_multiples_basic(x / w, w);
    assert(spec_cmsg_align(len, layout) == (x / w) * w);
    assert(0 <= x % w < w);
}

/// A message never claims more room than it is given: `CMSG_LEN(n)` is the
/// header size plus `n`, at most `CMSG_SPACE(n)`, and `CMSG_SPACE(n)` is the
/// multiple of the word size in `[n + header, n + header + word)`.
pub proof fn lemma_cmsg_len_within_space(len: int, layout: CmsgLayout)
    requires
        layout.wf(),
        len >= 0,
    ensures
        spec_cmsg_len(len, layout) == len + layout.word_size + 8,
        spec_cmsg_len(len, layout) <= spec_cmsg_space(len, layout),
        len + layout.word_size + 8 <= spec_cmsg_space(len, layout) < len + 2 * layout.word_size
            + 8,
        spec_cmsg_space(len, layout) % (layout.word_size as int) == 0,
{
    let w = layout.word_size as int;
    let h = layout.spec_header_len();
    lemma_cmsg_align_least_multiple(len, layout);
    let a = spec_cmsg_align(len, layout);
    let q = a / w;
    lemma_fundamental_div_mod(a, w);
    let hw = if w == 4 {
        3int
    } else {
        2int
    };
    assert(spec_cmsg_align(h, layout) == hw * w) by {
        if w == 4 {
            assert(spec_cmsg_align(h, layout) == 12);
        } else {
            assert(spec_cmsg_align(h, layout) == 16);
        }
    }
    assert(a == q * w) by (nonlinear_arith)
        requires
            a == w * q + a % w,
            a % w == 0,
    ;
    assert(spec_cmsg_space(len, layout) == (q + hw) * w) by (nonlinear_arith)
        requires
            spec_cmsg_space(len, layout) == a + hw * w,
            a == q * w,
    ;
    lemma_mod_multiples_basic(q + hw, w);
}

} // verus!
