use akin::lsp_frame::{classify_header_line, frame_header, frame_message, header_step, HeaderLine, HeaderStep};

#[test]
fn frames_messages() {
    assert_eq!(frame_header(0), "Content-Length: 0\r\n\r\n");
    assert_eq!(frame_message("{}"), "Content-Length: 2\r\n\r\n{}");
    assert_eq!(frame_message("{\"a\":\"é\"}"), "Content-Length: 10\r\n\r\n{\"a\":\"é\"}");
}

#[test]
fn header_lines() {
    assert_eq!(classify_header_line("\r\n"), HeaderLine::End);
    assert_eq!(classify_header_line(""), HeaderLine::End);
    assert_eq!(classify_header_line("Content-Length: 52\r\n"), HeaderLine::ContentLength(52));
    assert_eq!(classify_header_line("Content-Length:7"), HeaderLine::ContentLength(7));
    assert_eq!(classify_header_line("Content-Length: +7"), HeaderLine::ContentLength(7));
    assert_eq!(classify_header_line("Content-Length: x"), HeaderLine::ContentLength(0));
    assert_eq!(
        classify_header_line("Content-Length: 99999999999999999999999"),
        HeaderLine::ContentLength(0)
    );
    assert_eq!(
        classify_header_line("Content-Type: application/vscode-jsonrpc; charset=utf-8\r\n"),
        HeaderLine::Other
    );
}

#[test]
fn reader_steps() {
    assert_eq!(header_step(0, HeaderLine::ContentLength(12)), HeaderStep::Continue(12));
    assert_eq!(header_step(12, HeaderLine::Other), HeaderStep::Continue(12));
    assert_eq!(header_step(12, HeaderLine::End), HeaderStep::ReadBody(12));
    assert_eq!(header_step(0, HeaderLine::End), HeaderStep::Restart);
}
