//! What the results of the socket and descriptor system calls mean for the
//! caller: whether a descriptor went out, which descriptor came in, and
//! whether a received descriptor is open.

use crate::cmsg::{
    fd_control_bytes, fd_from_control, lemma_fd_control_roundtrip, spec_has_first_header,
    CmsgLayout, FD_PAYLOAD_LEN,
};
use crate::wire::i32_from;
use vstd::prelude::*;

verus! {

/// Why passing a descriptor failed.
#[derive(Debug, Clone, Copy, PartialEq, Eq, Structural)]
pub enum IpcError {
    /// The system call reported a failure; the reason is in `errno`.
    Os,
    /// The message arrived without a control message header, so no
    /// descriptor came with it.
    NoFdReceived,
}

/// The outcome of handing a descriptor message to `sendmsg`, which returned
/// `ret`: a negative return is a failure, anything else success.
pub fn send_result(ret: isize) -> (r: Result<(), IpcError>)
    ensures
        r == (if ret < 0 {
            Err::<(), IpcError>(IpcError::Os)
        } else {
            Ok(())
        }),
{
    if ret < 0 {
        Err(IpcError::Os)
    } else {
        Ok(())
    }
}

/// Whether `recvmsg`, which returned `ret`, failed. A negative return always
/// fails; an empty read (zero) fails only where the receiver demands data
/// (`empty_read_fails`).
pub open spec fn spec_recv_failed(ret: int, empty_read_fails: bool) -> bool {
    ret < 0 || (empty_read_fails && ret == 0)
}

/// The result of receiving a descriptor message.
pub open spec fn spec_recv_result(
    ret: int,
    control: Seq<u8>,
    controllen: int,
    empty_read_fails: bool,
    layout: CmsgLayout,
) -> Result<i32, IpcError> {
    if spec_recv_failed(ret, empty_read_fails) {
        Err(IpcError::Os)
    } else if !spec_has_first_header(controllen, layout) {
        Err(IpcError::NoFdReceived)
    } else {
        let h = layout.spec_header_len();
        Ok(i32_from(control.subrange(h, h + FD_PAYLOAD_LEN), layout.order))
    }
}

/// The descriptor that came with a message: `recvmsg` returned `ret` and
/// left `controllen` bytes of ancillary data in `control`. A failed call is
/// an OS error; a message without a control header carries no descriptor;
/// otherwise the descriptor is the `c_int` after the first header.
pub fn recv_result(
    ret: isize,
    control: &[u8],
    controllen: usize,
    empty_read_fails: bool,
    layout: &CmsgLayout,
) -> (r: Result<i32, IpcError>)
    requires
        layout.wf(),
        !spec_recv_failed(ret as int, empty_read_fails) && spec_has_first_header(
            controllen as int,
            *layout,
        ) ==> control@.len() >= layout.spec_header_len() + FD_PAYLOAD_LEN,
    ensures
        r == spec_recv_result(ret as int, control@, controllen as int, empty_read_fails, *layout),
        spec_recv_failed(ret as int, empty_read_fails) ==> r == Err::<i32, IpcError>(IpcError::Os),
        !spec_recv_failed(ret as int, empty_read_fails) && controllen < layout.word_size + 8 ==> r
            == Err::<i32, IpcError>(IpcError::NoFdReceived),
        !spec_recv_failed(ret as int, empty_read_fails) && controllen >= layout.word_size + 8 ==> r
            == Ok::<i32, IpcError>(
            i32_from(
                control@.subrange(layout.word_size + 8, layout.word_size + 12),
                layout.order,
            ),
        ),
{
    if ret < 0 || (empty_read_fails && ret == 0) {
        return Err(IpcError::Os);
    }
    match fd_from_control(control, controllen, layout) {
        Some(fd) => Ok(fd),
        None => Err(IpcError::NoFdReceived),
    }
}

/// Whether a descriptor is open, given what `fcntl(fd, F_GETFL)` returned:
/// it is not when the call returned -1.
pub fn fd_is_valid(fcntl_ret: i32) -> (valid: bool)
    ensures
        valid == (fcntl_ret != -1),
{
    fcntl_ret != -1
}

/// Whatever descriptor `g` the kernel installs in the receiver and frames
/// as a `SCM_RIGHTS` message in the receiver's control buffer, a successful
/// `recvmsg` that reports at least one message header yields `g`.
pub proof fn lemma_received_fd_is_framed_fd(
    g: i32,
    ret: int,
    controllen: int,
    empty_read_fails: bool,
    layout: CmsgLayout,
)
    requires
        layout.wf(),
        !spec_recv_failed(ret, empty_read_fails),
        controllen >= layout.word_size + 8,
    ensures
        spec_recv_result(ret, fd_control_bytes(g, layout), controllen, empty_read_fails, layout)
            == Ok::<i32, IpcError>(g),
{
    lemma_fd_control_roundtrip(g, layout);
}

/// A receiver that offers no control buffer never gets a descriptor: once
/// `recvmsg` succeeds the answer is `NoFdReceived`.
pub proof fn lemma_no_control_buffer_no_fd(
    ret: int,
    control: Seq<u8>,
    empty_read_fails: bool,
    layout: CmsgLayout,
)
    requires
        layout.wf(),
        !spec_recv_failed(ret, empty_read_fails),
    ensures
        spec_recv_result(ret, control, 0, empty_read_fails, layout) == Err::<i32, IpcError>(
            IpcError::NoFdReceived,
        ),
{
}

} // verus!
