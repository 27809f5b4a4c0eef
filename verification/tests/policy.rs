use unix_ancillary::{CmsgCodes, CmsgLayout, 
    clamp_nofile, convenience_control_size, max_recv_fds, recv_fds_outcome, send_all_begin,
    send_all_step, validate_stream_send, validate_stream_send_len, FdError, FdErrorKind,
    SendAllAction, SendAllState, SocketAncillary,
};

/// The header layout of this (Linux, glibc) target, as libc declares it.
fn layout() -> CmsgLayout {
    let w = std::mem::size_of::<usize>();
    CmsgLayout {
        header_size: std::mem::size_of::<libc::cmsghdr>(),
        header_len: std::mem::size_of::<libc::cmsghdr>(),
        align: w,
        len_offset: 0,
        len_width: w,
        level_offset: w,
        kind_offset: w + 4,
    }
}

/// The message codes of this target.
fn codes() -> CmsgCodes {
    CmsgCodes {
        sol_socket: libc::SOL_SOCKET,
        scm_rights: libc::SCM_RIGHTS,
        scm_credentials: Some(libc::SCM_CREDENTIALS),
    }
}


const HARD_FLOOR: usize = 253;
const HARD_CEILING: usize = 1 << 20;

#[test]
fn clamp_nofile_maps_special_and_out_of_range_values() {
    assert_eq!(clamp_nofile(0), HARD_FLOOR);
    assert_eq!(clamp_nofile(10), HARD_FLOOR);
    assert_eq!(clamp_nofile(1024), 1024);
    assert_eq!(clamp_nofile(libc::RLIM_INFINITY), HARD_CEILING);
    assert_eq!(clamp_nofile(u64::MAX as libc::rlim_t), HARD_CEILING);
}

#[test]
fn clamp_nofile_edges() {
    assert_eq!(clamp_nofile(253), 253);
    assert_eq!(clamp_nofile(254), 254);
    assert_eq!(clamp_nofile((1 << 20) - 1), (1 << 20) - 1);
    assert_eq!(clamp_nofile(1 << 20), HARD_CEILING);
    assert_eq!(clamp_nofile((1 << 20) + 1), HARD_CEILING);
}

#[test]
fn receive_budget_is_linux_scm_max_fd() {
    assert_eq!(max_recv_fds(true, None), 253);
    assert_eq!(max_recv_fds(true, Some(5000)), 253);
}

#[test]
fn receive_budget_without_kernel_cloexec_follows_rlimit() {
    assert_eq!(max_recv_fds(false, Some(1024)), 1024);
    assert_eq!(max_recv_fds(false, Some(10)), HARD_FLOOR);
    assert_eq!(max_recv_fds(false, Some(libc::RLIM_INFINITY)), HARD_CEILING);
    assert_eq!(max_recv_fds(false, None), HARD_CEILING);
}

#[test]
fn stream_validation_rejects_fds_without_payload() {
    let err = validate_stream_send(b"", 1).unwrap_err();
    assert_eq!(err, FdError::EmptyStreamPayload);
    assert_eq!(err.kind(), FdErrorKind::InvalidInput);
}

#[test]
fn stream_validation_allows_empty_payload_without_fds() {
    assert!(validate_stream_send(b"", 0).is_ok());
    assert!(validate_stream_send(b"x", 3).is_ok());
    assert!(validate_stream_send_len(0, 2).is_err());
    assert!(validate_stream_send_len(8, 2).is_ok());
}

#[test]
fn convenience_buffer_reserves_budget_and_credentials() {
    let budget = SocketAncillary::buffer_size_for_rights(253, layout())
        + SocketAncillary::buffer_size_for_credentials(layout());
    let linux = max_recv_fds(true, None);
    assert_eq!(convenience_control_size(1, linux, codes(), layout()), budget);
    assert_eq!(convenience_control_size(253, linux, codes(), layout()), budget);
    assert_eq!(
        convenience_control_size(1, 1024, codes(), layout()),
        SocketAncillary::buffer_size_for_rights(1024, layout()) + SocketAncillary::buffer_size_for_credentials(layout())
    );
    assert_eq!(
        convenience_control_size(300, linux, codes(), layout()),
        SocketAncillary::buffer_size_for_rights(300, layout()) + SocketAncillary::buffer_size_for_credentials(layout())
    );
}

#[test]
fn surplus_descriptors_are_returned_for_closing() {
    let (res, close) = recv_fds_outcome(5, vec![10, 11, 12], false, false, 1, false);
    let (n, kept) = res.unwrap();
    assert_eq!(n, 5);
    assert_eq!(kept, vec![10]);
    assert_eq!(close, vec![11, 12]);
}

#[test]
fn fewer_descriptors_than_asked_are_all_kept() {
    let (res, close) = recv_fds_outcome(3, vec![10], false, false, 4, false);
    assert_eq!(res.unwrap(), (3, vec![10]));
    assert!(close.is_empty());
}

#[test]
fn strict_receive_accepts_exact_count() {
    let (res, close) = recv_fds_outcome(3, vec![10, 11], false, false, 2, true);
    assert_eq!(res.unwrap(), (3, vec![10, 11]));
    assert!(close.is_empty());
}

#[test]
fn strict_receive_rejects_too_few() {
    let (res, close) = recv_fds_outcome(3, vec![10], false, false, 2, true);
    let err = res.unwrap_err();
    assert_eq!(err, FdError::DescriptorCountMismatch);
    assert_eq!(err.kind(), FdErrorKind::InvalidData);
    assert_eq!(close, vec![10]);
}

#[test]
fn strict_receive_rejects_too_many() {
    let (res, close) = recv_fds_outcome(5, vec![10, 11, 12], false, false, 2, true);
    assert_eq!(res.unwrap_err().kind(), FdErrorKind::InvalidData);
    assert_eq!(close, vec![10, 11, 12]);
}

#[test]
fn ancillary_truncation_is_an_error_and_closes_the_batch() {
    let (res, close) = recv_fds_outcome(5, vec![1, 2], true, false, 2, false);
    assert_eq!(res.unwrap_err(), FdError::AncillaryTruncated);
    assert_eq!(close, vec![1, 2]);
}

#[test]
fn payload_truncation_is_invalid_data() {
    let (res, close) = recv_fds_outcome(4, vec![], false, true, 0, false);
    let err = res.unwrap_err();
    assert_eq!(err, FdError::PayloadTruncated);
    assert_eq!(err.kind(), FdErrorKind::InvalidData);
    assert!(close.is_empty());
}

#[test]
fn send_all_attaches_descriptors_once_and_completes() {
    let (mut state, mut action) = send_all_begin(10, 1);
    assert_eq!(action, SendAllAction::SendWithFds);
    let accepted = [3usize, 4, 5];
    let mut fd_sends = 0;
    let mut i = 0;
    loop {
        match action {
            SendAllAction::SendWithFds => fd_sends += 1,
            SendAllAction::SendBytes(off) => assert_eq!(off, state.sent),
            SendAllAction::Finished => break,
            SendAllAction::Failed(e) => panic!("unexpected {e:?}"),
        }
        let (s, a) = send_all_step(state, accepted[i]);
        state = s;
        action = a;
        i += 1;
    }
    assert_eq!(fd_sends, 1);
    assert_eq!(state.sent, 10);
    assert_eq!(i, 3);
}

#[test]
fn send_all_zero_progress_is_write_zero() {
    let (state, _) = send_all_begin(4, 1);
    let (_, a) = send_all_step(state, 0);
    assert_eq!(a, SendAllAction::Failed(FdError::DescriptorPayloadNotSent));
    let later = SendAllState { data_len: 4, sent: 2, fds_pending: false };
    let (_, a) = send_all_step(later, 0);
    assert_eq!(a, SendAllAction::Failed(FdError::ShortWrite));
    assert_eq!(FdError::ShortWrite.kind(), FdErrorKind::WriteZero);
}

#[test]
fn send_all_without_descriptors() {
    assert_eq!(send_all_begin(0, 0).1, SendAllAction::Finished);
    assert_eq!(send_all_begin(5, 0).1, SendAllAction::SendBytes(0));
    assert_eq!(
        send_all_begin(0, 2).1,
        SendAllAction::Failed(FdError::EmptyStreamPayload)
    );
}

#[test]
fn convenience_size_reserves_credentials_only_where_they_exist() {
    let bsd = CmsgLayout {
        header_size: 12,
        header_len: 12,
        align: 4,
        len_offset: 0,
        len_width: 4,
        level_offset: 4,
        kind_offset: 8,
    };
    let no_credentials = CmsgCodes { sol_socket: 0xffff, scm_rights: 1, scm_credentials: None };
    assert_eq!(convenience_control_size(1, 253, no_credentials, bsd), 12 + 253 * 4);
    assert_eq!(
        convenience_control_size(1, 253, codes(), layout()),
        SocketAncillary::buffer_size_for_rights(253, layout())
            + SocketAncillary::buffer_size_for_credentials(layout())
    );
}
