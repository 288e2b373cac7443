use helix_lsp::transport::{
    frame, frame_header, read_header_line, write_decimal, FrameError, HeaderStep, Headers,
};

const NONE: Headers = Headers {
    content_length: None,
};

fn known(n: usize) -> Headers {
    Headers {
        content_length: Some(n),
    }
}

#[test]
fn content_length_is_read() {
    assert_eq!(
        read_header_line(NONE, "Content-Length: 52\r\n"),
        HeaderStep::More(known(52))
    );
    assert_eq!(
        read_header_line(known(1), "Content-Length: 0\r\n"),
        HeaderStep::More(known(0))
    );
    assert_eq!(
        read_header_line(NONE, "  Content-Length: 007 \r\n"),
        HeaderStep::More(known(7))
    );
    assert_eq!(
        read_header_line(NONE, "Content-Length: 18446744073709551615\r\n"),
        HeaderStep::More(known(usize::MAX))
    );
}

#[test]
fn content_length_that_is_no_number_is_turned_down() {
    for line in [
        "Content-Length: abc\r\n",
        "Content-Length: 12a\r\n",
        "Content-Length: -1\r\n",
        "Content-Length: +1\r\n",
        "Content-Length: 1 2\r\n",
        "Content-Length: 18446744073709551616\r\n",
        "Content-Length: 99999999999999999999999\r\n",
    ] {
        assert_eq!(
            read_header_line(known(3), line),
            HeaderStep::Reject(FrameError::InvalidContentLength),
            "{:?}",
            line
        );
    }
}

#[test]
fn empty_line_ends_the_headers() {
    assert_eq!(read_header_line(known(9), "\r\n"), HeaderStep::Body(9));
    assert_eq!(
        read_header_line(NONE, "\r\n"),
        HeaderStep::Reject(FrameError::MissingContentLength)
    );
    // only the empty line of the protocol does
    assert_eq!(read_header_line(known(9), "\n"), HeaderStep::More(known(9)));
    assert_eq!(read_header_line(known(9), " \r\n"), HeaderStep::More(known(9)));
}

#[test]
fn content_type_has_to_name_utf8() {
    for line in [
        "Content-Type: application/vscode-jsonrpc; charset=utf-8\r\n",
        "Content-Type: application/vscode-jsonrpc; charset=utf8\r\n",
        "Content-Type: application/vscode-jsonrpc;charset=utf-8; x=y\r\n",
        "Content-Type: application/vscode-jsonrpc; charset= utf-8 \r\n",
        "Content-Type: application/vscode-jsonrpc\r\n",
        "Content-Type: application/json\r\n",
    ] {
        assert_eq!(read_header_line(known(3), line), HeaderStep::More(known(3)), "{:?}", line);
    }
    for line in [
        "Content-Type: application/vscode-jsonrpc; charset=utf-16\r\n",
        "Content-Type: application/vscode-jsonrpc; charset=latin1\r\n",
        "Content-Type: text/plain; charset=\r\n",
        "Content-Type: charset=utf-8x\r\n",
    ] {
        assert_eq!(
            read_header_line(known(3), line),
            HeaderStep::Reject(FrameError::UnsupportedContentType),
            "{:?}",
            line
        );
    }
}

#[test]
fn other_lines_are_passed_over() {
    for line in [
        "X-Trace: on\r\n",
        "content-length: 5\r\n",
        "Content-Length:5\r\n",
        "Content-Length: \r\n",
        "warning: something was logged here\r\n",
        "no separator\r\n",
        ": \r\n",
        "",
    ] {
        assert_eq!(read_header_line(known(3), line), HeaderStep::More(known(3)), "{:?}", line);
        assert_eq!(read_header_line(NONE, line), HeaderStep::More(NONE), "{:?}", line);
    }
}

#[test]
fn numbers_in_decimal() {
    assert_eq!(write_decimal(0), "0");
    assert_eq!(write_decimal(7), "7");
    assert_eq!(write_decimal(10), "10");
    assert_eq!(write_decimal(1234567890), "1234567890");
    assert_eq!(write_decimal(u64::MAX), "18446744073709551615");
}

#[test]
fn frames_start_with_their_length() {
    assert_eq!(frame_header(0), "Content-Length: 0\r\n\r\n");
    assert_eq!(frame_header(52), "Content-Length: 52\r\n\r\n");
    assert_eq!(frame("{}"), "Content-Length: 2\r\n\r\n{}");
    // the length counts bytes
    assert_eq!(frame("\"\u{1f384}\""), "Content-Length: 6\r\n\r\n\"\u{1f384}\"");
}

#[test]
fn frame_header_reads_back() {
    for len in [0, 1, 9, 10, 99, 100, 4096, usize::MAX] {
        let header = frame_header(len);
        let mut lines = header.split_inclusive('\n');
        let first = read_header_line(NONE, lines.next().unwrap());
        assert_eq!(first, HeaderStep::More(known(len)));
        assert_eq!(
            read_header_line(known(len), lines.next().unwrap()),
            HeaderStep::Body(len)
        );
        assert_eq!(lines.next(), None);
    }
}
