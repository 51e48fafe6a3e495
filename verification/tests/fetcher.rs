use ckb_samples::ckb::{LoadReply, Source};
use ckb_samples::fetcher::{
    fetch_big_cell_data, first_step, next_step, FetchCursor, FetchError, FetchStep,
};
use ckb_samples::loads_of_hashes::Hasher;
use ckb_std::error::SysError;

/// Answers a load as CKB does for `data`, filling `buf`.
fn cell_reply(data: &[u8], offset: usize, buf: &mut [u8]) -> LoadReply {
    let start = offset.min(data.len());
    let rest = &data[start..];
    let n = rest.len().min(buf.len());
    buf[..n].copy_from_slice(&rest[..n]);
    if rest.len() <= buf.len() {
        LoadReply::Loaded(rest.len())
    } else {
        LoadReply::Partial(rest.len())
    }
}

/// Drives the library's step functions over `data` the way a read does,
/// with a visitor that answers `asks(i)` to its `i`-th piece, and returns
/// the pieces it received, what the read returned and the buffer it left.
/// Outside the CKB VM the syscalls of a real read all fail, so the steps are
/// checked here on answers computed as CKB computes them.
fn simulate_with(
    data: &[u8],
    buf: &mut [u8],
    offset: usize,
    asks: &dyn Fn(usize) -> bool,
) -> (Vec<Vec<u8>>, Result<(), FetchError>) {
    let buf_len = buf.len();
    let mut pieces: Vec<Vec<u8>> = Vec::new();
    let reply = cell_reply(data, offset, buf);
    let mut step = first_step(offset, buf_len, reply);
    loop {
        match step {
            FetchStep::Visit { len, next } => {
                pieces.push(buf[..len].to_vec());
                if !asks(pieces.len() - 1) {
                    return (pieces, Ok(()));
                }
                match next {
                    Some(c) if c.offset < c.total => {
                        let reply = cell_reply(data, c.offset, buf);
                        step = next_step(c, buf_len, reply);
                    }
                    _ => return (pieces, Ok(())),
                }
            }
            FetchStep::VisitAtLimit { offset, len } => {
                pieces.push(buf[..len].to_vec());
                if asks(pieces.len() - 1) {
                    return (pieces, Err(FetchError::OffsetOverflow { offset, len }));
                }
                return (pieces, Ok(()));
            }
            FetchStep::Fail(e) => return (pieces, Err(FetchError::Sys(e))),
            FetchStep::LengthMismatch { offset, len, total } => {
                return (pieces, Err(FetchError::LengthMismatch { offset, len, total }))
            }
        }
    }
}

/// [`simulate_with`] with a visitor that always asks for more, returning
/// all it received laid end to end.
fn simulate(data: &[u8], buf_len: usize, offset: usize) -> (Vec<u8>, Result<(), FetchError>) {
    let mut buf = vec![0u8; buf_len];
    let (pieces, r) = simulate_with(data, &mut buf, offset, &|_| true);
    (pieces.concat(), r)
}

#[test]
fn first_step_that_fits_visits_and_stops() {
    assert_eq!(
        first_step(0, 1024, LoadReply::Loaded(10)),
        FetchStep::Visit { len: 10, next: None }
    );
}

#[test]
fn first_step_that_fills_the_buffer_goes_on() {
    assert_eq!(
        first_step(0, 1024, LoadReply::Partial(5000)),
        FetchStep::Visit { len: 1024, next: Some(FetchCursor { offset: 1024, total: 5000 }) }
    );
    assert_eq!(
        first_step(7, 16, LoadReply::Partial(100)),
        FetchStep::Visit { len: 16, next: Some(FetchCursor { offset: 23, total: 100 }) }
    );
}

#[test]
fn first_step_that_fits_needs_no_room_past_the_offset() {
    assert_eq!(
        first_step(usize::MAX, 16, LoadReply::Loaded(3)),
        FetchStep::Visit { len: 3, next: None }
    );
}

#[test]
fn first_step_passes_a_load_error_on() {
    assert_eq!(
        first_step(0, 16, LoadReply::Failed(SysError::ItemMissing)),
        FetchStep::Fail(SysError::ItemMissing)
    );
}

#[test]
fn next_step_that_ends_the_data_moves_to_the_total() {
    let at = FetchCursor { offset: 2048, total: 3000 };
    assert_eq!(
        next_step(at, 1024, LoadReply::Loaded(952)),
        FetchStep::Visit { len: 952, next: Some(FetchCursor { offset: 3000, total: 3000 }) }
    );
}

#[test]
fn next_step_with_a_length_that_does_not_end_the_data_stops() {
    let at = FetchCursor { offset: 2048, total: 3000 };
    assert_eq!(
        next_step(at, 1024, LoadReply::Loaded(900)),
        FetchStep::LengthMismatch { offset: 2048, len: 900, total: 3000 }
    );
}

#[test]
fn next_step_that_fills_the_buffer_advances_by_it() {
    let at = FetchCursor { offset: 1024, total: 5000 };
    assert_eq!(
        next_step(at, 1024, LoadReply::Partial(3976)),
        FetchStep::Visit { len: 1024, next: Some(FetchCursor { offset: 2048, total: 5000 }) }
    );
}

#[test]
fn next_step_past_the_top_of_usize_visits_at_the_limit() {
    let at = FetchCursor { offset: usize::MAX - 3, total: usize::MAX };
    assert_eq!(
        next_step(at, 16, LoadReply::Partial(3)),
        FetchStep::VisitAtLimit { offset: usize::MAX - 3, len: 16 }
    );
}

#[test]
fn first_step_past_the_top_of_usize_visits_at_the_limit() {
    assert_eq!(
        first_step(usize::MAX - 3, 16, LoadReply::Partial(100)),
        FetchStep::VisitAtLimit { offset: usize::MAX - 3, len: 16 }
    );
    assert_eq!(
        first_step(usize::MAX - 16, 16, LoadReply::Partial(100)),
        FetchStep::Visit {
            len: 16,
            next: Some(FetchCursor { offset: usize::MAX, total: 100 })
        }
    );
}

#[test]
fn next_step_passes_a_load_error_on() {
    let at = FetchCursor { offset: 1, total: 5 };
    assert_eq!(
        next_step(at, 2, LoadReply::Failed(SysError::IndexOutOfBound)),
        FetchStep::Fail(SysError::IndexOutOfBound)
    );
}

#[test]
fn read_from_start_yields_whole_cell() {
    let data: Vec<u8> = (0..5000u32).map(|i| (i * 7 + 3) as u8).collect();
    for buf_len in [1usize, 2, 3, 7, 64, 1000, 1024, 4999, 5000, 5001, 8192] {
        let (seen, r) = simulate(&data, buf_len, 0);
        assert_eq!(r, Ok(()));
        assert_eq!(seen, data, "buffer of {} bytes", buf_len);
    }
}

#[test]
fn read_pieces_are_buffer_sized_chunks() {
    let data = [1u8, 2, 3, 4, 5];
    let mut buf = [0u8; 2];
    let (pieces, r) = simulate_with(&data, &mut buf, 0, &|_| true);
    assert_eq!(r, Ok(()));
    assert_eq!(pieces, vec![vec![1, 2], vec![3, 4], vec![5]]);
    assert_eq!(buf, [5, 4]);
}

#[test]
fn read_stops_at_the_first_declined_piece() {
    let data = [1u8, 2, 3, 4, 5];
    let mut buf = [0u8; 2];
    let (pieces, r) = simulate_with(&data, &mut buf, 0, &|i| i < 1);
    assert_eq!(r, Ok(()));
    assert_eq!(pieces, vec![vec![1, 2], vec![3, 4]]);
    assert_eq!(buf, [3, 4]);
}

#[test]
fn visitor_that_declines_gets_one_piece() {
    let data = [1u8, 2, 3, 4, 5];
    let mut buf = [0u8; 2];
    let (pieces, r) = simulate_with(&data, &mut buf, 0, &|_| false);
    assert_eq!(r, Ok(()));
    assert_eq!(pieces, vec![vec![1, 2]]);
}

#[test]
fn small_cell_fills_the_front_of_the_buffer() {
    let data = [7u8, 8];
    let mut buf = [0u8; 4];
    let (pieces, r) = simulate_with(&data, &mut buf, 0, &|_| false);
    assert_eq!(r, Ok(()));
    assert_eq!(pieces, vec![vec![7, 8]]);
    assert_eq!(buf, [7, 8, 0, 0]);
}

#[test]
fn read_of_empty_cell_yields_nothing() {
    let (seen, r) = simulate(&[], 16, 0);
    assert_eq!(r, Ok(()));
    assert!(seen.is_empty());
}

#[test]
fn read_from_later_offset_that_fits_yields_the_rest() {
    let data = [1u8, 2, 3, 4, 5];
    let (seen, r) = simulate(&data, 8, 2);
    assert_eq!(r, Ok(()));
    assert_eq!(seen, vec![3, 4, 5]);
}

#[test]
fn read_from_later_offset_across_loads_reports_a_mismatch() {
    // The first load reports the length from the offset on, and later loads
    // compare against it as an absolute end.
    let data = [1u8, 2, 3, 4, 5];
    let (seen, r) = simulate(&data, 2, 1);
    assert_eq!(seen, vec![2, 3]);
    assert_eq!(r, Err(FetchError::LengthMismatch { offset: 3, len: 2, total: 4 }));
}

#[test]
fn fetch_outside_the_vm_reports_the_syscall_error() {
    // Outside the CKB VM every syscall of ckb-std answers the error number
    // u64::MAX, so the first load fails and nothing is visited.
    let mut hasher = Hasher::new();
    let mut buf = [0u8; 1024];
    let r = fetch_big_cell_data(&mut hasher, &mut buf, 0, 1, Source::Input);
    assert_eq!(r, Err(FetchError::Sys(SysError::Unknown(u64::MAX))));
    assert_eq!(hasher.finalize(), Hasher::new().finalize());
}
