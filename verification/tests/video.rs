//! MJPEG stream handling: addresses, headers, chunked bodies and frame
//! cutting, driven over in-memory bytes the way a connection reader
//! drives them.

use robocol::video::{
    is_chunked_header, kmp_failure, parse_boundary, parse_chunk_size, part_content_length,
    response_head, status_ok, strip_crlf, ChunkNext, Chunked, FrameScanner, HeadError, Scan,
    StreamConfig, MAX_FRAME_BYTES,
};

/// A byte source: reads lines and bytes from a buffer.
struct Reader {
    data: Vec<u8>,
    pos: usize,
}

impl Reader {
    fn new(data: Vec<u8>) -> Reader {
        Reader { data, pos: 0 }
    }

    /// A CRLF-terminated line without its line end; `None` at the end.
    fn line(&mut self) -> Option<String> {
        if self.pos >= self.data.len() {
            return None;
        }
        let mut line = Vec::new();
        while self.pos < self.data.len() {
            let b = self.data[self.pos];
            self.pos += 1;
            line.push(b);
            if b == b'\n' || line.len() > 8192 {
                break;
            }
        }
        while matches!(line.last(), Some(b'\r' | b'\n')) {
            line.pop();
        }
        Some(String::from_utf8_lossy(&line).into_owned())
    }

    fn byte(&mut self) -> Option<u8> {
        let b = *self.data.get(self.pos)?;
        self.pos += 1;
        Some(b)
    }
}

struct Head {
    boundary: String,
    chunked: bool,
}

fn read_head(r: &mut Reader) -> Result<Head, String> {
    let status = r.line().ok_or("stream ended mid-header")?;
    if !status_ok(&status) {
        return Err(format!("unexpected HTTP status: {status}"));
    }
    let mut headers = Vec::new();
    loop {
        let line = r.line().ok_or("stream ended mid-header")?;
        if line.is_empty() {
            break;
        }
        headers.push(line);
    }
    match response_head(&status, &headers) {
        Ok(h) => Ok(Head { boundary: h.boundary, chunked: h.chunked }),
        Err(HeadError::BadStatus) => Err(format!("unexpected HTTP status: {status}")),
        Err(HeadError::NoBoundary) => Err("no multipart boundary".to_string()),
    }
}

/// The body of a chunked transfer, de-chunked.
fn dechunk(r: &mut Reader) -> Vec<u8> {
    let mut out = Vec::new();
    loop {
        let mut line = r.line().unwrap();
        while line.is_empty() {
            line = r.line().unwrap();
        }
        let size = parse_chunk_size(&line).unwrap();
        if size == 0 {
            return out;
        }
        for _ in 0..size {
            out.push(r.byte().unwrap());
        }
        r.byte().unwrap();
        r.byte().unwrap();
    }
}

fn skip_part_headers(r: &mut Reader) -> Option<Option<usize>> {
    let mut content_length = None;
    loop {
        let line = r.line()?;
        if line.is_empty() {
            return Some(content_length);
        }
        if let Some(n) = part_content_length(&line) {
            content_length = n;
        }
    }
}

fn read_until_delim(r: &mut Reader, delim: &[u8]) -> Option<Vec<u8>> {
    let mut scanner = FrameScanner::new(delim.to_vec());
    loop {
        match scanner.feed(r.byte()?) {
            Scan::Found => return Some(scanner.into_frame()),
            Scan::TooLong => return None,
            Scan::More => {}
        }
    }
}

fn frames_from(r: &mut Reader, delim: &[u8]) -> Vec<Vec<u8>> {
    r.line().unwrap();
    let mut frames = Vec::new();
    while skip_part_headers(r).is_some() {
        let Some(mut frame) = read_until_delim(r, delim) else {
            break;
        };
        strip_crlf(&mut frame);
        let _ = r.line();
        frames.push(frame);
    }
    frames
}

fn multipart_bytes() -> Vec<u8> {
    let jpeg_a = [0xFFu8, 0xD8, 0x01, 0x02, 0xFF, 0xD9];
    let jpeg_b = [0xFFu8, 0xD8, 0xAA, 0xBB, 0xCC, 0xFF, 0xD9];
    let mut buf = Vec::new();
    buf.extend_from_slice(
        b"HTTP/1.0 200 OK\r\nContent-Type: multipart/x-mixed-replace; boundary=frame\r\n\r\n",
    );
    for jpeg in [jpeg_a.as_slice(), jpeg_b.as_slice()] {
        buf.extend_from_slice(
            format!("--frame\r\nContent-Type: image/jpeg\r\nContent-Length: {}\r\n\r\n", jpeg.len())
                .as_bytes(),
        );
        buf.extend_from_slice(jpeg);
        buf.extend_from_slice(b"\r\n");
    }
    buf.extend_from_slice(b"--frame--\r\n");
    buf
}

fn read_all_frames(buf: Vec<u8>) -> Vec<Vec<u8>> {
    let mut reader = Reader::new(buf);
    let head = read_head(&mut reader).unwrap();
    assert!(!head.chunked);
    let delim = format!("--{}", head.boundary).into_bytes();
    frames_from(&mut reader, &delim)
}

fn chunk_encode(body: &[u8], chunk: usize) -> Vec<u8> {
    let mut out = Vec::new();
    for part in body.chunks(chunk) {
        out.extend_from_slice(format!("{:x}\r\n", part.len()).as_bytes());
        out.extend_from_slice(part);
        out.extend_from_slice(b"\r\n");
    }
    out.extend_from_slice(b"0\r\n\r\n");
    out
}

fn find(haystack: &[u8], needle: &[u8]) -> Option<usize> {
    haystack.windows(needle.len()).position(|w| w == needle)
}

#[test]
fn dechunks_before_framing() {
    let body = {
        let full = multipart_bytes();
        let head_end = find(&full, b"\r\n\r\n").unwrap() + 4;
        full[head_end..].to_vec()
    };
    let mut buf = Vec::new();
    buf.extend_from_slice(
        b"HTTP/1.1 200 OK\r\nTransfer-Encoding: chunked\r\n\
          Content-Type: multipart/x-mixed-replace; boundary=frame\r\n\r\n",
    );
    buf.extend_from_slice(&chunk_encode(&body, 4));
    let mut reader = Reader::new(buf);
    let head = read_head(&mut reader).unwrap();
    assert!(head.chunked);
    let delim = format!("--{}", head.boundary).into_bytes();
    let mut dechunked = Reader::new(dechunk(&mut reader));
    let frames = frames_from(&mut dechunked, &delim);
    assert_eq!(frames[0], vec![0xFF, 0xD8, 0x01, 0x02, 0xFF, 0xD9]);
    assert_eq!(frames[1], vec![0xFF, 0xD8, 0xAA, 0xBB, 0xCC, 0xFF, 0xD9]);
}

#[test]
fn dechunks_large_multi_chunk_frames() {
    let mut jpeg = vec![0xFFu8, 0xD8];
    jpeg.extend(std::iter::repeat_n(0xAB, 20_000));
    jpeg.extend_from_slice(&[0xFF, 0xD9]);
    let mut body = Vec::new();
    for _ in 0..2 {
        body.extend_from_slice(
            format!("--frame\r\nContent-Type: image/jpeg\r\nContent-Length: {}\r\n\r\n", jpeg.len())
                .as_bytes(),
        );
        body.extend_from_slice(&jpeg);
        body.extend_from_slice(b"\r\n");
    }
    body.extend_from_slice(b"--frame--\r\n");

    let mut buf = Vec::new();
    buf.extend_from_slice(
        b"HTTP/1.1 200 OK\r\nTransfer-Encoding: chunked\r\n\
          Content-Type: multipart/x-mixed-replace; boundary=frame\r\n\r\n",
    );
    buf.extend_from_slice(&chunk_encode(&body, 8192));
    let mut reader = Reader::new(buf);
    let head = read_head(&mut reader).unwrap();
    assert!(head.chunked);
    let delim = format!("--{}", head.boundary).into_bytes();
    let mut dechunked = Reader::new(dechunk(&mut reader));
    let frames = frames_from(&mut dechunked, &delim);
    assert_eq!(frames.len(), 2, "expected 2 frames, got {}", frames.len());
    assert_eq!(frames[0], jpeg);
    assert_eq!(frames[1], jpeg);
}

#[test]
fn frames_delimited_by_boundary() {
    let frames = read_all_frames(multipart_bytes());
    assert_eq!(frames[0], vec![0xFF, 0xD8, 0x01, 0x02, 0xFF, 0xD9]);
    assert_eq!(frames[1], vec![0xFF, 0xD8, 0xAA, 0xBB, 0xCC, 0xFF, 0xD9]);
}

#[test]
fn boundary_framing_ignores_content_length_and_marker_bytes() {
    let jpeg = [0xFFu8, 0xD8, 0xFF, 0xDB, 0x00, 0xFF, 0xD9, 0x22, 0xFF, 0xD9];
    let mut buf = Vec::new();
    buf.extend_from_slice(
        b"HTTP/1.0 200 OK\r\nContent-Type: multipart/x-mixed-replace; boundary=f\r\n\r\n",
    );
    buf.extend_from_slice(b"--f\r\nContent-Type: image/jpeg\r\nContent-Length: 3\r\n\r\n");
    buf.extend_from_slice(&jpeg);
    buf.extend_from_slice(b"\r\n--f\r\n");
    assert_eq!(read_all_frames(buf)[0], jpeg);
}

#[test]
fn rejects_non_200_status() {
    let mut reader = Reader::new(b"HTTP/1.0 404 Not Found\r\n\r\n".to_vec());
    assert!(read_head(&mut reader).is_err());
}

#[test]
fn stream_config_parse() {
    let c = StreamConfig::parse("limelight", "http://127.0.0.1:5800/stream").unwrap();
    assert_eq!((c.host.as_str(), c.port, c.path.as_str()), ("127.0.0.1", 5800, "/stream"));
    let d = StreamConfig::parse("webcam", "10.0.0.2").unwrap();
    assert_eq!((d.host.as_str(), d.port, d.path.as_str()), ("10.0.0.2", 80, "/"));
}

#[test]
fn stream_config_edge_cases() {
    assert_eq!(StreamConfig::parse("s", "http://:80/x"), None);
    assert_eq!(StreamConfig::parse("s", "host:notaport"), None);
    assert_eq!(StreamConfig::parse("s", "host:70000"), None);
    assert_eq!(StreamConfig::parse("s", ""), None);
    let e = StreamConfig::parse("s", "cam:+8080").unwrap();
    assert_eq!(e.port, 8080);
    assert_eq!(e.source, "s");
    let f = StreamConfig::parse("s", "a:b:81/p/q").unwrap();
    assert_eq!((f.host.as_str(), f.port, f.path.as_str()), ("a:b", 81, "/p/q"));
}

#[test]
fn boundary_headers() {
    assert_eq!(
        parse_boundary("Content-Type: multipart/x-mixed-replace;boundary=\"--BoundaryString\""),
        Some("--BoundaryString".to_string())
    );
    assert_eq!(parse_boundary("content-TYPE: multipart/x; BOUNDARY= f "), Some("f".to_string()));
    assert_eq!(parse_boundary("Content-Length: 5"), None);
    assert_eq!(parse_boundary("Content-Type: image/jpeg"), None);
    assert_eq!(parse_boundary("no colon"), None);
}

#[test]
fn status_and_transfer_headers() {
    assert!(status_ok("HTTP/1.1 200 OK"));
    assert!(!status_ok("HTTP/1.1 2000 OK"));
    assert!(!status_ok("HTTP/1.1 404 Not Found"));
    assert!(status_ok("200"));
    assert!(is_chunked_header("Transfer-Encoding: gzip, Chunked"));
    assert!(!is_chunked_header("Content-Type: chunked"));
    assert_eq!(part_content_length("Content-Length: 42 "), Some(Some(42)));
    assert_eq!(part_content_length("content-length: x"), Some(None));
    assert_eq!(part_content_length("Content-Type: image/jpeg"), None);
    assert_eq!(parse_chunk_size("1f;ext=1"), Some(31));
    assert_eq!(parse_chunk_size(" A \r"), Some(10));
    assert_eq!(parse_chunk_size("zz"), None);
    assert_eq!(parse_chunk_size(""), None);
}

#[test]
fn failure_table_is_the_longest_proper_border() {
    assert_eq!(kmp_failure(b"ababaca"), vec![0, 0, 1, 2, 3, 0, 1]);
    assert_eq!(kmp_failure(b"aaaa"), vec![0, 1, 2, 3]);
    assert_eq!(kmp_failure(b""), Vec::<usize>::new());
}

#[test]
fn scanner_stops_at_the_first_boundary() {
    let mut s = FrameScanner::new(b"--ab".to_vec());
    let mut result = Scan::More;
    for &b in b"x---a--ab--ab" {
        result = s.feed(b);
        if result == Scan::Found {
            break;
        }
    }
    assert_eq!(result, Scan::Found);
    assert_eq!(s.into_frame(), b"x---a".to_vec());
}

#[test]
fn scanner_gives_up_on_oversized_frames() {
    let mut s = FrameScanner::new(b"--f".to_vec());
    let mut n = 0usize;
    loop {
        match s.feed(0) {
            Scan::More => n += 1,
            Scan::TooLong => break,
            Scan::Found => panic!("no boundary was fed"),
        }
    }
    assert_eq!(n, MAX_FRAME_BYTES);
}

#[test]
fn crlf_is_cut_only_at_the_end() {
    let mut a = b"ab\r\n".to_vec();
    strip_crlf(&mut a);
    assert_eq!(a, b"ab");
    let mut b = b"\r\nab".to_vec();
    strip_crlf(&mut b);
    assert_eq!(b, b"\r\nab");
}

#[test]
fn the_last_boundary_header_wins() {
    let headers = vec![
        "Content-Type: multipart/x-mixed-replace; boundary=first".to_string(),
        "Transfer-Encoding: chunked".to_string(),
        "Content-Type: multipart/x-mixed-replace; boundary=\"second\"".to_string(),
    ];
    let h = response_head("HTTP/1.1 200 OK", &headers).unwrap();
    assert_eq!(h.boundary, "second");
    assert!(h.chunked);
    assert!(matches!(response_head("HTTP/1.1 404 Not Found", &headers), Err(HeadError::BadStatus)));
    assert!(matches!(
        response_head("HTTP/1.1 200 OK", &vec!["Server: x".to_string()]),
        Err(HeadError::NoBoundary)
    ));
}

#[test]
fn chunked_body_steps() {
    let mut c = Chunked::new();
    assert_eq!(c.next(0), ChunkNext::Eof);
    assert_eq!(c.next(10), ChunkNext::SizeLine);
    assert_eq!(c.size_line("", 10), ChunkNext::SizeLine);
    assert_eq!(c.size_line("zz", 10), ChunkNext::BadSize);
    assert_eq!(c.size_line("1a;ext=1", 10), ChunkNext::Read(10));
    assert_eq!(c.remaining, 26);
    assert_eq!(c.got(0), None);
    assert_eq!(c.got(10), Some(false));
    assert_eq!(c.next(100), ChunkNext::Read(16));
    assert_eq!(c.got(16), Some(true));
    assert_eq!(c.next(100), ChunkNext::SizeLine);
    assert_eq!(c.size_line("0", 100), ChunkNext::Eof);
    assert!(c.done);
    assert_eq!(c.next(100), ChunkNext::Eof);
}
