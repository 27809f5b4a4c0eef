use unix_ancillary::codec::{parse_messages, RawMessages};
use unix_ancillary::{CmsgCodes, CmsgLayout, ScmCredentials, SocketAncillary, __fuzz_parse};

/// The header layout of this (Linux, glibc) target, as libc declares it.
fn layout() -> CmsgLayout {
    let w = std::mem::size_of::<usize>();
    CmsgLayout {
        header_size: std::mem::size_of::<libc::cmsghdr>(),
        header_len: std::mem::size_of::<libc::cmsghdr>(),
        align: w,
        len_offset: 0,
        len_width: w,
        level_offset: w,
        kind_offset: w + 4,
    }
}

/// The message codes of this target.
fn codes() -> CmsgCodes {
    CmsgCodes {
        sol_socket: libc::SOL_SOCKET,
        scm_rights: libc::SCM_RIGHTS,
        scm_credentials: Some(libc::SCM_CREDENTIALS),
    }
}


#[test]
fn parser_counts_written_messages() {
    let mut out = SocketAncillary::new(vec![0u8; 256], codes(), layout());
    assert_eq!(__fuzz_parse(&out.control_for_send().unwrap(), layout()), 0);
    out.add_fds(&[1]).unwrap();
    out.add_fds(&[1, 2, 3]).unwrap();
    out.add_fds(&[]).unwrap();
    let control = out.control_for_send().unwrap();
    assert_eq!(__fuzz_parse(&control, layout()), 3);
    // A cut in the middle of the second message keeps only the first.
    let first = SocketAncillary::buffer_size_for_rights(1, layout());
    assert_eq!(__fuzz_parse(&control[..first + 4], layout()), 1);
}

#[test]
fn parser_rejects_short_and_oversized_headers() {
    let w = std::mem::size_of::<usize>();
    assert_eq!(__fuzz_parse(&[], layout()), 0);
    assert_eq!(__fuzz_parse(&vec![0u8; w + 7], layout()), 0);
    // cmsg_len smaller than a header.
    assert_eq!(__fuzz_parse(&vec![0u8; 64], layout()), 0);
    // cmsg_len larger than the buffer.
    let mut big = vec![0u8; 32];
    big[..w].copy_from_slice(&usize::MAX.to_ne_bytes()[..w]);
    assert_eq!(__fuzz_parse(&big, layout()), 0);
}

#[test]
fn parser_survives_arbitrary_bytes_at_every_offset() {
    let mut seed: u32 = 12345;
    let mut data = vec![0u8; 512];
    for b in data.iter_mut() {
        seed = seed.wrapping_mul(1103515245).wrapping_add(12345);
        *b = (seed >> 16) as u8;
    }
    for offset in 0..=8 {
        let n = __fuzz_parse(&data[offset..], layout());
        assert!(n * (std::mem::size_of::<usize>() + 8) <= data.len() - offset);
    }
}

#[test]
fn parser_stops_after_message_whose_padding_overruns() {
    let w = std::mem::size_of::<usize>();
    let mut out = SocketAncillary::new(vec![0u8; 64], codes(), layout());
    out.add_fds(&[1]).unwrap();
    let control = out.control_for_send().unwrap();
    // Drop the padding: the message still parses, and parsing stops there.
    let exact = w + 8 + 4;
    if exact < control.len() {
        assert_eq!(__fuzz_parse(&control[..exact], layout()), 1);
    }
}

#[test]
fn parser_reads_back_each_written_message() {
    let mut out = SocketAncillary::new(vec![0u8; 128], codes(), layout());
    out.add_fds(&[7, 8]).unwrap();
    let creds = ScmCredentials::new(42, 1000, 1001);
    out.add_credentials(creds).unwrap();
    let control = out.control_for_send().unwrap();
    let messages = parse_messages(&control, layout());
    assert_eq!(messages.len(), 2);
    assert_eq!(messages[0].level, libc::SOL_SOCKET);
    assert_eq!(messages[0].kind, libc::SCM_RIGHTS);
    let mut rights = 7i32.to_ne_bytes().to_vec();
    rights.extend_from_slice(&8i32.to_ne_bytes());
    assert_eq!(messages[0].data, rights);
    assert_eq!(messages[1].level, libc::SOL_SOCKET);
    assert_eq!(messages[1].kind, libc::SCM_CREDENTIALS);
    assert_eq!(messages[1].data, creds.to_ucred_bytes());
}

/// A BSD-style header: a four-byte `cmsg_len`, 12 bytes in all, payloads
/// padded to four bytes.
fn bsd_layout() -> CmsgLayout {
    CmsgLayout {
        header_size: 12,
        header_len: 12,
        align: 4,
        len_offset: 0,
        len_width: 4,
        level_offset: 4,
        kind_offset: 8,
    }
}

/// musl on a 64-bit target: a four-byte `cmsg_len` followed by four bytes
/// of padding, then level and type.
fn musl_layout() -> CmsgLayout {
    CmsgLayout {
        header_size: 16,
        header_len: 16,
        align: 8,
        len_offset: 0,
        len_width: 4,
        level_offset: 8,
        kind_offset: 12,
    }
}

#[test]
fn parser_follows_a_bsd_layout() {
    let codes = CmsgCodes { sol_socket: 0xffff, scm_rights: 1, scm_credentials: None };
    let mut out = SocketAncillary::new(vec![0u8; 64], codes, bsd_layout());
    out.add_fds(&[5]).unwrap();
    out.add_fds(&[6, 7]).unwrap();
    let control = out.control_for_send().unwrap();
    // 12 + 4, then 12 + 8.
    assert_eq!(control.len(), 16 + 20);
    assert_eq!(&control[0..4], &16u32.to_ne_bytes());
    assert_eq!(&control[4..8], &0xffffi32.to_ne_bytes());
    assert_eq!(&control[8..12], &1i32.to_ne_bytes());
    assert_eq!(&control[12..16], &5i32.to_ne_bytes());
    assert_eq!(&control[16..20], &20u32.to_ne_bytes());
    assert_eq!(__fuzz_parse(&control, bsd_layout()), 2);
    let messages = parse_messages(&control, bsd_layout());
    assert_eq!(messages[1].level, 0xffff);
    assert_eq!(messages[1].data.len(), 8);
}

#[test]
fn musl_length_field_ignores_its_padding() {
    let mut control = vec![0u8; 24];
    control[0..4].copy_from_slice(&20u32.to_ne_bytes());
    // Non-zero bytes in the padding after the four-byte length.
    control[4..8].copy_from_slice(&[0xde, 0xad, 0xbe, 0xef]);
    control[8..12].copy_from_slice(&1i32.to_ne_bytes());
    control[12..16].copy_from_slice(&1i32.to_ne_bytes());
    control[16..20].copy_from_slice(&9i32.to_ne_bytes());
    let messages = parse_messages(&control, musl_layout());
    assert_eq!(messages.len(), 1);
    assert_eq!(messages[0].data, 9i32.to_ne_bytes().to_vec());
}

#[test]
fn layout_and_code_validity() {
    assert!(layout().is_valid());
    assert!(bsd_layout().is_valid());
    assert!(musl_layout().is_valid());
    let mut odd = bsd_layout();
    odd.align = 16;
    assert!(!odd.is_valid());
    let mut overlapping = bsd_layout();
    overlapping.kind_offset = 6;
    assert!(!overlapping.is_valid());
    let mut short = bsd_layout();
    short.header_len = 8;
    assert!(!short.is_valid());
    assert!(codes().is_valid());
    let same = CmsgCodes { sol_socket: 1, scm_rights: 1, scm_credentials: Some(1) };
    assert!(!same.is_valid());
}

#[test]
fn raw_messages_step_through_a_buffer_then_stay_empty() {
    let mut out = SocketAncillary::new(vec![0u8; 128], codes(), layout());
    out.add_fds(&[3]).unwrap();
    out.add_fds(&[4, 5]).unwrap();
    let control = out.control_for_send().unwrap();
    let mut it = RawMessages::new(&control, layout());
    let first = it.next().unwrap();
    assert_eq!(first.kind, libc::SCM_RIGHTS);
    assert_eq!(first.data, 3i32.to_ne_bytes().to_vec());
    let second = it.next().unwrap();
    assert_eq!(second.data.len(), 8);
    assert!(it.next().is_none());
    assert!(it.next().is_none());
}

#[test]
fn raw_messages_refuse_a_length_outside_the_buffer() {
    let w = std::mem::size_of::<usize>();
    let mut control = vec![0u8; w + 8 + 4];
    // cmsg_len one past the end.
    control[..w].copy_from_slice(&(w + 8 + 5).to_ne_bytes());
    assert!(RawMessages::new(&control, layout()).next().is_none());
    // cmsg_len below CMSG_LEN(0).
    control[..w].copy_from_slice(&(w + 7).to_ne_bytes());
    assert!(RawMessages::new(&control, layout()).next().is_none());
    // Exactly the buffer: one message, whose padding is the buffer's end.
    control[..w].copy_from_slice(&(w + 8 + 4).to_ne_bytes());
    let mut it = RawMessages::new(&control, layout());
    assert_eq!(it.next().unwrap().data.len(), 4);
    assert!(it.next().is_none());
}
