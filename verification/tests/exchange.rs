use jobserver_client::{begin, parse_jobserver_auth, Endpoint, ExchangeError, JobServerStyle};

#[test]
fn semaphore_is_not_implemented() {
    assert_eq!(begin(&JobServerStyle::Sem), Err(ExchangeError::Unimplemented));
}

#[test]
fn negative_descriptors_skip_the_exchange() {
    assert_eq!(begin(&JobServerStyle::Pipe(-2, -2)), Ok(None));
    assert_eq!(begin(&JobServerStyle::Pipe(-1, 4)), Ok(None));
    assert_eq!(begin(&JobServerStyle::Pipe(3, -1)), Ok(None));
    assert_eq!(begin(&JobServerStyle::Pipe(i32::MIN, 0)), Ok(None));
}

#[test]
fn usable_transports_yield_their_endpoint() {
    assert_eq!(begin(&JobServerStyle::Pipe(3, 4)), Ok(Some(Endpoint::Descriptors(3, 4))));
    assert_eq!(begin(&JobServerStyle::Pipe(0, 0)), Ok(Some(Endpoint::Descriptors(0, 0))));
    assert_eq!(
        begin(&JobServerStyle::Fifo("/tmp/GMfifo6851")),
        Ok(Some(Endpoint::NamedPipe("/tmp/GMfifo6851"))),
    );
}

#[test]
fn token_is_two_bytes_on_a_pipe_and_one_on_descriptors() {
    assert_eq!(Endpoint::NamedPipe("/tmp/x").token_len(), 2);
    assert_eq!(Endpoint::Descriptors(3, 4).token_len(), 1);
}

#[test]
fn resolved_negative_descriptors_are_skipped_without_error() {
    let style = parse_jobserver_auth("  -j3 --jobserver-auth=3,4 --jobserver-auth=-2,-2").unwrap();
    assert_eq!(style, JobServerStyle::Pipe(-2, -2));
    assert_eq!(begin(&style), Ok(None));
}

#[test]
fn resolved_descriptors_read_one_byte_from_the_first_and_write_it_to_the_second() {
    let style = parse_jobserver_auth("  -j3 --jobserver-auth=3,4").unwrap();
    let endpoint = begin(&style).unwrap().unwrap();
    assert_eq!(endpoint, Endpoint::Descriptors(3, 4));
    assert_eq!(endpoint.token_len(), 1);
    let token = endpoint.acquired(Some(vec![b'+'])).unwrap();
    assert_eq!(token.bytes(), &[b'+'][..]);
    assert_eq!(token.released(Some(1)), Ok(vec![b'+']));
}

#[test]
fn what_is_written_back_is_what_was_read() {
    let endpoint = Endpoint::Descriptors(5, 6);
    for byte in [0u8, 1, b'+', b'|', 0x7f, 0x80, 0xff] {
        let token = endpoint.acquired(Some(vec![byte])).unwrap();
        assert_eq!(token.bytes(), &[byte][..]);
        assert_eq!(token.released(Some(1)), Ok(vec![byte]));
    }
    let pipe = Endpoint::NamedPipe("/tmp/x");
    let token = pipe.acquired(Some(vec![b'a', 0xfe])).unwrap();
    assert_eq!(token.bytes(), &[b'a', 0xfe][..]);
    assert_eq!(token.released(Some(2)), Ok(vec![b'a', 0xfe]));
}

#[test]
fn short_or_failed_read_fails_the_acquire() {
    let pipe = Endpoint::NamedPipe("/tmp/x");
    assert_eq!(pipe.acquired(None), Err(ExchangeError::AcquireFailed));
    assert_eq!(pipe.acquired(Some(vec![])), Err(ExchangeError::AcquireFailed));
    assert_eq!(pipe.acquired(Some(vec![b'+'])), Err(ExchangeError::AcquireFailed));
    assert_eq!(pipe.acquired(Some(vec![1, 2, 3])), Err(ExchangeError::AcquireFailed));
    let pair = Endpoint::Descriptors(3, 4);
    assert_eq!(pair.acquired(None), Err(ExchangeError::AcquireFailed));
    assert_eq!(pair.acquired(Some(vec![])), Err(ExchangeError::AcquireFailed));
    assert_eq!(pair.acquired(Some(vec![1, 2])), Err(ExchangeError::AcquireFailed));
}

#[test]
fn short_or_failed_write_fails_the_release() {
    let pipe = Endpoint::NamedPipe("/tmp/x");
    assert_eq!(pipe.acquired(Some(vec![1, 2])).unwrap().released(None), Err(ExchangeError::ReleaseFailed));
    assert_eq!(pipe.acquired(Some(vec![1, 2])).unwrap().released(Some(1)), Err(ExchangeError::ReleaseFailed));
    assert_eq!(pipe.acquired(Some(vec![1, 2])).unwrap().released(Some(0)), Err(ExchangeError::ReleaseFailed));
    assert_eq!(pipe.acquired(Some(vec![1, 2])).unwrap().released(Some(3)), Err(ExchangeError::ReleaseFailed));
    let pair = Endpoint::Descriptors(3, 4);
    assert_eq!(pair.acquired(Some(vec![9])).unwrap().released(Some(0)), Err(ExchangeError::ReleaseFailed));
    assert_eq!(pair.acquired(Some(vec![9])).unwrap().released(None), Err(ExchangeError::ReleaseFailed));
}

#[test]
fn token_is_shown_byte_by_byte() {
    let pipe = Endpoint::NamedPipe("/tmp/x");
    let token = pipe.acquired(Some(vec![b'+', b'|'])).unwrap();
    assert_eq!(token.display(), vec!['+', '|']);
    let token = pipe.acquired(Some(vec![0x00, 0xe9])).unwrap();
    assert_eq!(token.display(), vec!['\0', 'é']);
    assert_eq!(token.bytes(), &[0x00, 0xe9][..]);
}
