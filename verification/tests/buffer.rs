use unix_ancillary::{CmsgCodes, CmsgLayout, 
    AncillaryData, FdError, FdErrorKind, ScmCredentials, SocketAncillary,
};

/// The header layout of this (Linux, glibc) target, as libc declares it.
fn layout() -> CmsgLayout {
    let w = std::mem::size_of::<usize>();
    CmsgLayout {
        header_size: std::mem::size_of::<libc::cmsghdr>(),
        header_len: std::mem::size_of::<libc::cmsghdr>(),
        align: w,
        len_offset: 0,
        len_width: w,
        level_offset: w,
        kind_offset: w + 4,
    }
}

/// The message codes of this target.
fn codes() -> CmsgCodes {
    CmsgCodes {
        sol_socket: libc::SOL_SOCKET,
        scm_rights: libc::SCM_RIGHTS,
        scm_credentials: Some(libc::SCM_CREDENTIALS),
    }
}


fn word() -> usize {
    std::mem::size_of::<usize>()
}

fn drain(anc: &mut SocketAncillary) -> Vec<AncillaryData> {
    let mut messages = anc.messages();
    let mut out = Vec::new();
    while let Some(m) = messages.next() {
        out.push(m);
    }
    out
}

fn rights(m: AncillaryData) -> Vec<i32> {
    match m {
        AncillaryData::ScmRights(r) => r.into_fds(),
        _ => panic!("expected descriptors"),
    }
}

/// Hand `control` to a fresh buffer as if the kernel had written it.
fn receive(control: &[u8]) -> SocketAncillary {
    let mut anc = SocketAncillary::new(vec![0u8; 256], codes(), layout());
    anc.begin_receive();
    anc.complete_receive(control, 1, false, false);
    anc
}

#[test]
fn buffer_size_calculation() {
    let size1 = SocketAncillary::buffer_size_for_rights(1, layout());
    let size4 = SocketAncillary::buffer_size_for_rights(4, layout());
    assert!(size1 > 0);
    assert!(size4 > size1);
}

#[test]
fn buffer_sizes_follow_cmsg_space() {
    let w = word();
    assert_eq!(std::mem::size_of::<libc::cmsghdr>(), w + 8);
    let hdr = w + 8;
    let pad = |n: usize| (n + w - 1) / w * w;
    assert_eq!(SocketAncillary::buffer_size_for_rights(0, layout()), hdr);
    assert_eq!(SocketAncillary::buffer_size_for_rights(1, layout()), hdr + pad(4));
    assert_eq!(SocketAncillary::buffer_size_for_rights(3, layout()), hdr + pad(12));
    assert_eq!(SocketAncillary::buffer_size_for_credentials(layout()), hdr + pad(12));
}

#[test]
fn ancillary_buffer_too_small() {
    let mut ancillary = SocketAncillary::new(vec![0u8; 1], codes(), layout());
    assert!(ancillary.add_fds(&[3]).is_err());
}

#[test]
fn exact_size_buffer_takes_its_descriptors() {
    let size = SocketAncillary::buffer_size_for_rights(2, layout());
    let mut anc = SocketAncillary::new(vec![0u8; size], codes(), layout());
    assert!(anc.add_fds(&[5, 6]).is_ok());
    assert!(anc.add_fds(&[]).is_err());
    let mut short = SocketAncillary::new(vec![0u8; size - 1], codes(), layout());
    assert!(short.add_fds(&[5, 6]).is_err());
}

#[test]
fn send_buffer_drains_no_messages() {
    let mut anc = SocketAncillary::new(vec![0u8; 128], codes(), layout());
    anc.add_fds(&[7]).unwrap();
    assert_eq!(anc.messages().len(), 0);
}

#[test]
fn written_descriptors_and_credentials_read_back() {
    let size = SocketAncillary::buffer_size_for_rights(3, layout())
        + SocketAncillary::buffer_size_for_credentials(layout());
    let mut out = SocketAncillary::new(vec![0u8; size], codes(), layout());
    out.add_fds(&[3, 4, 5]).unwrap();
    let creds = ScmCredentials::new(1234, 1000, 100);
    out.add_credentials(creds).unwrap();
    let control = out.control_for_send().unwrap();
    assert_eq!(control.len(), size);

    let mut anc = receive(&control);
    let got = drain(&mut anc);
    assert_eq!(got.len(), 2);
    let mut got = got.into_iter();
    assert_eq!(rights(got.next().unwrap()), vec![3, 4, 5]);
    match got.next().unwrap() {
        AncillaryData::Credentials(c) => {
            assert_eq!(c, creds);
            assert_eq!((c.pid(), c.uid(), c.gid()), (1234, 1000, 100));
        }
        _ => panic!("expected credentials"),
    }
}

#[test]
fn header_fields_are_native_integers() {
    let mut out = SocketAncillary::new(vec![0xAAu8; 64], codes(), layout());
    out.add_fds(&[9]).unwrap();
    let control = out.control_for_send().unwrap();
    let w = word();
    let mut len_bytes = [0u8; 8];
    len_bytes[..w].copy_from_slice(&control[..w]);
    let cmsg_len = if w == 8 {
        u64::from_ne_bytes(len_bytes) as usize
    } else {
        u32::from_ne_bytes([len_bytes[0], len_bytes[1], len_bytes[2], len_bytes[3]]) as usize
    };
    assert_eq!(cmsg_len, w + 8 + 4);
    let level = i32::from_ne_bytes(control[w..w + 4].try_into().unwrap());
    let kind = i32::from_ne_bytes(control[w + 4..w + 8].try_into().unwrap());
    assert_eq!(level, libc::SOL_SOCKET);
    assert_eq!(kind, libc::SCM_RIGHTS);
    let fd = i32::from_ne_bytes(control[w + 8..w + 12].try_into().unwrap());
    assert_eq!(fd, 9);
    // Padding is zeroed, not left from the storage's old contents.
    assert!(control[w + 12..].iter().all(|&b| b == 0));
}

#[test]
fn received_messages_drain_once() {
    let mut out = SocketAncillary::new(vec![0u8; 64], codes(), layout());
    out.add_fds(&[11]).unwrap();
    let control = out.control_for_send().unwrap();
    let mut anc = receive(&control);
    let first = drain(&mut anc);
    assert_eq!(first.len(), 1);
    assert_eq!(drain(&mut anc).len(), 0, "receive buffer yielded the same fd twice");
}

#[test]
fn rights_iterator_hands_out_each_descriptor_once() {
    let mut out = SocketAncillary::new(vec![0u8; 64], codes(), layout());
    out.add_fds(&[1, 2, 3]).unwrap();
    let control = out.control_for_send().unwrap();
    let mut anc = receive(&control);
    let mut messages = anc.messages();
    match messages.next().unwrap() {
        AncillaryData::ScmRights(mut r) => {
            assert_eq!(r.len(), 3);
            assert_eq!(r.next(), Some(1));
            assert_eq!(r.next(), Some(2));
            assert_eq!(r.next(), Some(3));
            assert_eq!(r.next(), None);
        }
        _ => panic!("expected descriptors"),
    }
    assert!(messages.next().is_none());
}

#[test]
fn negative_descriptor_numbers_are_skipped() {
    let mut out = SocketAncillary::new(vec![0u8; 64], codes(), layout());
    out.add_fds(&[4, -1, 5]).unwrap();
    let control = out.control_for_send().unwrap();
    let mut anc = receive(&control);
    assert_eq!(anc.take_fds(), vec![4, 5]);
}

#[test]
fn receive_buffer_cannot_be_sent_until_cleared() {
    let mut out = SocketAncillary::new(vec![0u8; 64], codes(), layout());
    out.add_fds(&[3]).unwrap();
    let control = out.control_for_send().unwrap();
    let mut anc = receive(&control);
    let err = anc.control_for_send().unwrap_err();
    assert_eq!(err, FdError::ReceiveBufferNotCleared);
    assert_eq!(err.kind(), FdErrorKind::InvalidInput);
    assert!(anc.add_fds(&[3]).is_err());
    anc.clear();
    assert_eq!(anc.control_for_send().unwrap().len(), 0);
    assert!(anc.add_fds(&[3]).is_ok());
}

#[test]
fn failed_receive_does_not_retain_previous_messages() {
    let mut out = SocketAncillary::new(vec![0u8; 64], codes(), layout());
    out.add_fds(&[3, 3, 3]).unwrap();
    let control = out.control_for_send().unwrap();
    let mut anc = receive(&control);
    // A second receive starts, and its syscall fails: nothing stale remains.
    anc.begin_receive();
    let stale = drain(&mut anc);
    assert!(stale.is_empty(), "failed receive left stale messages");
    assert!(anc.control_for_send().is_err());
}

#[test]
fn truncation_flag_is_reported() {
    let mut anc = SocketAncillary::new(vec![0u8; 64], codes(), layout());
    anc.begin_receive();
    let r = anc.complete_receive(&[], 7, true, true);
    assert_eq!(r.bytes_read, 7);
    assert!(r.truncated);
    assert!(r.data_truncated);
    assert!(anc.is_truncated());
    anc.clear();
    assert!(!anc.is_truncated());
}

#[test]
fn cloexec_plan_lists_every_delivered_descriptor() {
    let mut out = SocketAncillary::new(vec![0u8; 128], codes(), layout());
    out.add_fds(&[3, 4]).unwrap();
    out.add_credentials(ScmCredentials::new(1, 2, 3)).unwrap();
    out.add_fds(&[8]).unwrap();
    let control = out.control_for_send().unwrap();
    let anc = receive(&control);
    assert_eq!(unix_ancillary::cloexec_received(&anc), vec![3, 4, 8]);
}

#[test]
fn for_rights_builds_exact_send_buffer() {
    let anc = SocketAncillary::for_rights(&[10, 11], codes(), layout());
    let control = anc.control_for_send().unwrap();
    assert_eq!(control.len(), SocketAncillary::buffer_size_for_rights(2, layout()));
    let mut back = receive(&control);
    assert_eq!(back.take_fds(), vec![10, 11]);
}

#[test]
fn credentials_bytes_roundtrip() {
    let c = ScmCredentials::new(-5, u32::MAX, 42);
    let bytes = c.to_ucred_bytes();
    assert_eq!(bytes.len(), 12);
    assert_eq!(&bytes[0..4], &(-5i32).to_ne_bytes());
    assert_eq!(ScmCredentials::from_ucred_bytes(&bytes), c);
}

#[test]
fn legal_maximum_rights_with_credentials_fit_their_buffer() {
    let size = SocketAncillary::buffer_size_for_rights(253, layout())
        + SocketAncillary::buffer_size_for_credentials(layout());
    let mut anc = SocketAncillary::new(vec![0u8; size], codes(), layout());
    let fds: Vec<i32> = (0..253).collect();
    anc.add_fds(&fds).unwrap();
    anc.add_credentials(ScmCredentials::new(1, 2, 3)).unwrap();
    assert!(anc.add_fds(&[1]).is_err());
    let control = anc.control_for_send().unwrap();
    assert_eq!(control.len(), size);
    let mut back = SocketAncillary::new(vec![0u8; size], codes(), layout());
    back.begin_receive();
    back.complete_receive(&control, 1, false, false);
    assert_eq!(back.take_fds(), fds);
}

#[test]
fn send_buffer_read_by_a_receive_buffer_of_the_same_shape() {
    let bsd = CmsgLayout {
        header_size: 12,
        header_len: 12,
        align: 4,
        len_offset: 0,
        len_width: 4,
        level_offset: 4,
        kind_offset: 8,
    };
    let codes = CmsgCodes { sol_socket: 0xffff, scm_rights: 1, scm_credentials: None };
    let size = SocketAncillary::buffer_size_for_rights(3, bsd);
    assert_eq!(size, 12 + 12);
    let mut out = SocketAncillary::new(vec![0u8; size], codes, bsd);
    out.add_fds(&[4, -1, 6]).unwrap();
    let control = out.control_for_send().unwrap();
    let mut back = SocketAncillary::new(vec![0u8; size], codes, bsd);
    back.begin_receive();
    back.complete_receive(&control, 1, false, false);
    let got = drain(&mut back);
    assert_eq!(got.len(), 1);
    assert_eq!(rights(got.into_iter().next().unwrap()), vec![4, 6]);
}
