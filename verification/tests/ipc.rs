use shm_ipc::cmsg::{
    cmsg_align, cmsg_len, cmsg_space, fd_control_message, fd_from_control, has_first_header,
    CmsgLayout, FD_PAYLOAD_LEN,
};
use shm_ipc::record::{region_size_for, MyStruct, I32_SIZE, MY_STRUCT_SIZE};
use shm_ipc::region::SharedRegion;
use shm_ipc::transfer::{fd_is_valid, recv_result, send_result, IpcError};
use shm_ipc::wire::{decode_i32, decode_i32_at, decode_u32_at, encode_i32, encode_u32, encode_u64, Endian};

fn lp64() -> CmsgLayout {
    CmsgLayout::new(8, Endian::Little, 1, 1).unwrap()
}

fn ilp32() -> CmsgLayout {
    CmsgLayout::new(4, Endian::Little, 1, 1).unwrap()
}

fn native() -> CmsgLayout {
    let order = if 1u16.to_ne_bytes()[0] == 1 { Endian::Little } else { Endian::Big };
    CmsgLayout::new(std::mem::size_of::<usize>(), order, libc::SOL_SOCKET, libc::SCM_RIGHTS).unwrap()
}

#[test]
fn layout_matches_libc() {
    let layout = native();
    assert_eq!(std::mem::size_of::<libc::cmsghdr>(), layout.header_len());
    assert_eq!(std::mem::size_of::<libc::c_int>(), FD_PAYLOAD_LEN as usize);
    let control = fd_control_message(3, &layout);
    let w = std::mem::size_of::<usize>();
    assert_eq!(&control[w..w + 4], &libc::SOL_SOCKET.to_ne_bytes());
    assert_eq!(&control[w + 4..w + 8], &libc::SCM_RIGHTS.to_ne_bytes());
}

#[test]
fn layout_word_sizes() {
    assert_eq!(CmsgLayout::new(2, Endian::Little, 1, 1), None);
    assert_eq!(CmsgLayout::new(16, Endian::Big, 1, 1), None);
    assert_eq!(lp64().header_len(), 16);
    assert_eq!(ilp32().header_len(), 12);
}

#[test]
fn cmsg_arithmetic_values() {
    let l = lp64();
    assert_eq!(cmsg_align(0, &l), 0);
    assert_eq!(cmsg_align(1, &l), 8);
    assert_eq!(cmsg_align(8, &l), 8);
    assert_eq!(cmsg_align(17, &l), 24);
    assert_eq!(cmsg_len(4, &l), 20);
    assert_eq!(cmsg_len(0, &l), 16);
    assert_eq!(cmsg_space(4, &l), 24);
    assert_eq!(cmsg_space(0, &l), 16);
    assert_eq!(cmsg_space(9, &l), 32);
}

#[test]
fn cmsg_arithmetic_values_32bit() {
    let l = ilp32();
    assert_eq!(cmsg_align(1, &l), 4);
    assert_eq!(cmsg_align(12, &l), 12);
    assert_eq!(cmsg_align(13, &l), 16);
    assert_eq!(cmsg_len(4, &l), 16);
    assert_eq!(cmsg_space(4, &l), 16);
    assert_eq!(cmsg_space(5, &l), 20);
}

#[test]
fn first_header_threshold() {
    assert!(!has_first_header(0, &lp64()));
    assert!(!has_first_header(15, &lp64()));
    assert!(has_first_header(16, &lp64()));
    assert!(!has_first_header(11, &ilp32()));
    assert!(has_first_header(12, &ilp32()));
}

#[test]
fn control_message_bytes_for_fd() {
    let control = fd_control_message(7, &lp64());
    assert_eq!(
        control,
        vec![20, 0, 0, 0, 0, 0, 0, 0, 1, 0, 0, 0, 1, 0, 0, 0, 7, 0, 0, 0, 0, 0, 0, 0]
    );
}

#[test]
fn control_message_bytes_32bit_and_big_endian() {
    assert_eq!(
        fd_control_message(7, &ilp32()),
        vec![16, 0, 0, 0, 1, 0, 0, 0, 1, 0, 0, 0, 7, 0, 0, 0]
    );
    let be = CmsgLayout::new(8, Endian::Big, 1, 1).unwrap();
    assert_eq!(
        fd_control_message(7, &be),
        vec![0, 0, 0, 0, 0, 0, 0, 20, 0, 0, 0, 1, 0, 0, 0, 1, 0, 0, 0, 7, 0, 0, 0, 0]
    );
}

#[test]
fn control_message_uses_layout_constants() {
    let mips = CmsgLayout::new(4, Endian::Big, 0xffff, 1).unwrap();
    assert_eq!(
        fd_control_message(7, &mips),
        vec![0, 0, 0, 16, 0, 0, 0xff, 0xff, 0, 0, 0, 1, 0, 0, 0, 7]
    );
    assert_eq!(fd_from_control(&fd_control_message(7, &mips), 16, &mips), Some(7));
}

#[test]
fn control_message_negative_and_large_fd() {
    let control = fd_control_message(-1, &lp64());
    assert_eq!(&control[16..20], &[255, 255, 255, 255]);
    let control = fd_control_message(0x0102_0304, &lp64());
    assert_eq!(&control[16..20], &[4, 3, 2, 1]);
    assert_eq!(&control[20..24], &[0, 0, 0, 0]);
}

#[test]
fn control_message_roundtrip() {
    let layouts = [lp64(), ilp32(), CmsgLayout::new(8, Endian::Big, 1, 1).unwrap(), CmsgLayout::new(4, Endian::Big, 1, 1).unwrap()];
    for layout in layouts {
        for fd in [0, 1, 3, 42, 1023, i32::MAX, -1, i32::MIN] {
            let control = fd_control_message(fd, &layout);
            assert_eq!(fd_from_control(&control, control.len(), &layout), Some(fd));
            assert_eq!(fd_from_control(&control, layout.header_len(), &layout), Some(fd));
        }
    }
}

#[test]
fn control_matches_native_layout() {
    let layout = native();
    let control = fd_control_message(5, &layout);
    assert_eq!(control.len(), layout.header_len() + 4 + if layout.header_len() == 16 { 4 } else { 0 });
    assert_eq!(&control[layout.header_len()..layout.header_len() + 4], &5i32.to_ne_bytes());
}

#[test]
fn control_without_header_carries_no_fd() {
    let control = fd_control_message(5, &lp64());
    assert_eq!(fd_from_control(&control, 15, &lp64()), None);
    assert_eq!(fd_from_control(&control, 0, &lp64()), None);
    assert_eq!(fd_from_control(&[], 0, &lp64()), None);
}

#[test]
fn send_results() {
    assert_eq!(send_result(-1), Err(IpcError::Os));
    assert_eq!(send_result(0), Ok(()));
    assert_eq!(send_result(1), Ok(()));
}

#[test]
fn recv_results_with_descriptor() {
    let control = fd_control_message(9, &lp64());
    assert_eq!(recv_result(1, &control, 24, true, &lp64()), Ok(9));
    assert_eq!(recv_result(1, &control, 24, false, &lp64()), Ok(9));
    assert_eq!(recv_result(0, &control, 24, false, &lp64()), Ok(9));
}

#[test]
fn recv_results_failures() {
    let l = lp64();
    let control = fd_control_message(9, &l);
    assert_eq!(recv_result(-1, &control, 24, true, &l), Err(IpcError::Os));
    assert_eq!(recv_result(-1, &control, 24, false, &l), Err(IpcError::Os));
    assert_eq!(recv_result(0, &control, 24, true, &l), Err(IpcError::Os));
    assert_eq!(recv_result(1, &control, 8, true, &l), Err(IpcError::NoFdReceived));
    assert_eq!(recv_result(-1, &[], 24, true, &l), Err(IpcError::Os));
    assert_eq!(recv_result(0, &[], 24, true, &l), Err(IpcError::Os));
}

#[test]
fn recv_without_control_buffer_gets_no_fd() {
    assert_eq!(recv_result(1024, &[], 0, false, &lp64()), Err(IpcError::NoFdReceived));
    assert_eq!(recv_result(0, &[], 0, false, &ilp32()), Err(IpcError::NoFdReceived));
}

#[test]
fn fd_validity() {
    assert!(!fd_is_valid(-1));
    assert!(fd_is_valid(0));
    assert!(fd_is_valid(2));
    assert!(fd_is_valid(-2));
}

#[test]
fn integer_encoding() {
    assert_eq!(encode_i32(100, Endian::Little), vec![100, 0, 0, 0]);
    assert_eq!(encode_i32(100, Endian::Big), vec![0, 0, 0, 100]);
    assert_eq!(encode_i32(-1, Endian::Little), vec![255, 255, 255, 255]);
    assert_eq!(encode_i32(-1_000_000, Endian::Little), (-1_000_000i32).to_le_bytes().to_vec());
    assert_eq!(encode_i32(-1_000_000, Endian::Big), (-1_000_000i32).to_be_bytes().to_vec());
    assert_eq!(encode_u32(0xdead_beef, Endian::Little), vec![0xef, 0xbe, 0xad, 0xde]);
    assert_eq!(encode_u32(0xdead_beef, Endian::Big), vec![0xde, 0xad, 0xbe, 0xef]);
    assert_eq!(encode_u64(20, Endian::Little), vec![20, 0, 0, 0, 0, 0, 0, 0]);
    assert_eq!(encode_u64(0x0102_0304_0506_0708, Endian::Little), vec![8, 7, 6, 5, 4, 3, 2, 1]);
    assert_eq!(encode_u64(0x0102_0304_0506_0708, Endian::Big), vec![1, 2, 3, 4, 5, 6, 7, 8]);
}

#[test]
fn integer_decoding() {
    assert_eq!(decode_i32(&[100, 0, 0, 0]), Some(100));
    assert_eq!(decode_i32(&[0xc0, 0xbd, 0xf0, 0xff]), Some(-1_000_000));
    assert_eq!(decode_i32(&[1, 0, 0, 0, 9]), Some(1));
    assert_eq!(decode_i32(&[1, 2, 3]), None);
    assert_eq!(decode_i32(&[]), None);
    assert_eq!(decode_i32_at(&[0, 0, 7, 0, 0, 0], 2, Endian::Little), Some(7));
    assert_eq!(decode_i32_at(&[0, 0, 0, 0, 0, 7], 2, Endian::Big), Some(7));
    assert_eq!(decode_i32_at(&[0, 0, 7, 0, 0], 2, Endian::Little), None);
    assert_eq!(decode_i32_at(&[0, 0, 7], usize::MAX, Endian::Little), None);
    assert_eq!(decode_i32_at(&[0xff, 0xff, 0xff, 0xfe], 0, Endian::Big), Some(-2));
    assert_eq!(decode_u32_at(&[0xef, 0xbe, 0xad, 0xde], 0, Endian::Little), Some(0xdead_beef));
    assert_eq!(decode_u32_at(&[0xde, 0xad, 0xbe, 0xef], 0, Endian::Big), Some(0xdead_beef));
}

#[test]
fn integer_roundtrip() {
    for n in [0, 1, -1, 100, 12345678, i32::MAX, i32::MIN] {
        assert_eq!(decode_i32(&encode_i32(n, Endian::Little)), Some(n));
        for order in [Endian::Little, Endian::Big] {
            assert_eq!(decode_i32_at(&encode_i32(n, order), 0, order), Some(n));
        }
    }
}

#[test]
fn posix_region_holds_written_number() {
    let mut region = SharedRegion::new(I32_SIZE);
    assert_eq!(region.as_bytes(), &[0, 0, 0, 0]);
    region.write_i32(0, 100, Endian::Little);
    assert_eq!(region.read_i32(0, Endian::Little), 100);
    assert_eq!(i32::from_le_bytes(region.as_bytes().try_into().unwrap()), 100);
    region.write_i32(0, 100, Endian::Big);
    assert_eq!(region.as_bytes(), &[0, 0, 0, 100]);
    assert_eq!(region.read_i32(0, Endian::Big), 100);
}

#[test]
fn region_writes_leave_other_bytes() {
    let mut region = SharedRegion::new(12);
    region.write_i32(0, -5, Endian::Little);
    region.write_bytes(4, b"abcd");
    region.write_i32(8, 77, Endian::Little);
    assert_eq!(region.read_i32(0, Endian::Little), -5);
    assert_eq!(region.read_bytes(4, 4), b"abcd".to_vec());
    assert_eq!(region.read_i32(8, Endian::Little), 77);
    assert_eq!(region.len(), 12);
}

#[test]
fn ashmem_hello_region() {
    let message = b"hello!\0";
    let size = region_size_for(message.len());
    assert_eq!(size, 7);
    let mut region = SharedRegion::new(size);
    region.write_bytes(0, message);
    assert_eq!(region.read_bytes(0, 7), message.to_vec());
    assert_eq!(region_size_for(0), 4);
    assert_eq!(region_size_for(3), 4);
    assert_eq!(region_size_for(4), 4);
}

#[test]
fn sysv_text_roundtrip() {
    let text = b"this is the text we want to share through IPC\n";
    assert_eq!(text.len(), 46);
    let mut region = SharedRegion::new(46);
    region.write_bytes(0, text);
    let copied = SharedRegion::from_bytes(region.as_bytes().to_vec());
    assert_eq!(copied.read_bytes(0, 46), text.to_vec());
}

#[test]
fn my_struct_layout() {
    let s = MyStruct { data1: 100, data2_bits: 2.2f32.to_bits() };
    let bytes = s.encode(Endian::Little);
    assert_eq!(bytes.len(), MY_STRUCT_SIZE);
    assert_eq!(&bytes[0..4], &[100, 0, 0, 0]);
    assert_eq!(&bytes[4..8], &2.2f32.to_le_bytes());
    assert_eq!(MyStruct::decode(&bytes, Endian::Little), Some(s));
    assert_eq!(MyStruct::decode(&bytes[..7], Endian::Little), None);
    let be = s.encode(Endian::Big);
    assert_eq!(&be[4..8], &2.2f32.to_be_bytes());
    assert_eq!(MyStruct::decode(&be, Endian::Big), Some(s));
}

#[test]
fn my_struct_store_and_load() {
    let s = MyStruct { data1: 100, data2_bits: 2.2f32.to_bits() };
    let mut region = SharedRegion::new(MY_STRUCT_SIZE);
    s.store(&mut region, 0, Endian::Little);
    assert_eq!(MyStruct::load(&region, 0, Endian::Little), s);
    assert_eq!(f32::from_bits(MyStruct::load(&region, 0, Endian::Little).data2_bits), 2.2f32);
}

#[test]
fn reader_sees_first_field() {
    let s = MyStruct { data1: 100, data2_bits: 2.2f32.to_bits() };
    let mut region = SharedRegion::new(16 + I32_SIZE);
    s.store(&mut region, 0, Endian::Little);
    assert_eq!(region.read_i32(0, Endian::Little), 100);
    assert_eq!(region.read_i32(16, Endian::Little), 0);
}
