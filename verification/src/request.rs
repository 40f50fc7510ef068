//! Reading a request.
//!
//! A request comes as bytes. Of these only the first line is interpreted, and
//! of that line only the path: the second of the tokens that single spaces
//! separate. Method and version are ignored. The header lines that follow are
//! read up to the blank line that ends them, and dropped unseen: they need not
//! even be text.

use vstd::prelude::*;
use vstd::utf8::{decode_utf8, encode_utf8, encode_utf8_decode_utf8, encode_utf8_valid_utf8, valid_utf8};
use crate::text::{decode, lemma_position, lemma_position_is_first, position};

verus! {

/// A request path, taken as it is written.
pub type Route = String;

/// The byte that separates the tokens of a request line.
pub const SPACE: u8 = 0x20;

/// The byte that ends a line.
pub const LINE_FEED: u8 = 0x0A;

/// The byte that may stand before the line feed and then belongs to the
/// line's end.
pub const CARRIAGE_RETURN: u8 = 0x0D;

/// The first line of a request holds no path: it is empty, or has no space,
/// or what follows its first space is no UTF-8.
#[derive(Debug, Clone, Copy, PartialEq, Eq, Structural)]
pub struct MalformedRequest;

/// The first line of `request` without its terminator, which is a line feed
/// or a carriage return and a line feed; all of `request` if it holds no line
/// feed.
pub open spec fn first_line(request: Seq<u8>) -> Seq<u8> {
    let end = position(request, LINE_FEED);
    if 0 < end < request.len() && request[end - 1] == CARRIAGE_RETURN {
        request.take(end - 1)
    } else {
        request.take(end)
    }
}

/// The second of the tokens that single spaces separate in `line`, if there
/// are two.
pub open spec fn request_path(line: Seq<u8>) -> Option<Seq<u8>> {
    let space = position(line, SPACE);
    if space < line.len() {
        let rest = line.skip(space + 1);
        Some(rest.take(position(rest, SPACE)))
    } else {
        None
    }
}

/// The path that `request` asks for: the second token of its first line, as
/// text.
pub open spec fn requested_route(request: Seq<u8>) -> Option<Seq<char>> {
    match request_path(first_line(request)) {
        Some(path) if valid_utf8(path) => Some(decode_utf8(path)),
        _ => None,
    }
}

/// Whether `line`, as it was read, ends the header section: a line that is
/// empty but for its terminator, or nothing at all, which is the end of the
/// stream.
pub open spec fn ends_headers(line: Seq<u8>) -> bool {
    line =~= Seq::<u8>::empty() || line =~= seq![LINE_FEED] || line =~= seq![
        CARRIAGE_RETURN,
        LINE_FEED,
    ]
}

/// How far the reading of a request has come.
///
/// The reader is fed the lines of a connection as they are read, each with
/// its terminator, and an empty line where the stream has ended. It takes the
/// path from the first line and looks at the others only to see whether the
/// header section has ended.
pub enum RequestReader {
    /// No line was read yet.
    AwaitingRequestLine,
    /// The path is known and header lines are being dropped.
    DiscardingHeaders { route: Route },
    /// The header section has ended: the request is read.
    Complete { route: Route },
    /// The first line held no path.
    Malformed,
}

/// The states of a `RequestReader`, with the path as a plain value.
pub enum Progress {
    /// No line was read yet.
    AwaitingRequestLine,
    /// The path is known and header lines are being dropped.
    DiscardingHeaders { route: Seq<char> },
    /// The header section has ended: the request is read.
    Complete { route: Seq<char> },
    /// The first line held no path.
    Malformed,
}

impl Progress {
    /// The state after `line` was read in this state.
    pub open spec fn feed(self, line: Seq<u8>) -> Progress {
        match self {
            Progress::AwaitingRequestLine => match requested_route(line) {
                Some(route) => Progress::DiscardingHeaders { route },
                None => Progress::Malformed,
            },
            Progress::DiscardingHeaders { route } => if ends_headers(line) {
                Progress::Complete { route }
            } else {
                Progress::DiscardingHeaders { route }
            },
            Progress::Complete { route } => Progress::Complete { route },
            Progress::Malformed => Progress::Malformed,
        }
    }

    /// The state after all of `lines` were read in this state, in order.
    pub open spec fn feed_all(self, lines: Seq<Seq<u8>>) -> Progress
        decreases lines.len(),
    {
        if lines.len() == 0 {
            self
        } else {
            self.feed(lines.first()).feed_all(lines.drop_first())
        }
    }

    /// Whether another line is to be read.
    pub open spec fn wants_line(self) -> bool {
        self is AwaitingRequestLine || self is DiscardingHeaders
    }

    /// The path, once the first line has given one.
    pub open spec fn route(self) -> Option<Seq<char>> {
        match self {
            Progress::DiscardingHeaders { route } => Some(route),
            Progress::Complete { route } => Some(route),
            _ => None,
        }
    }
}

impl View for RequestReader {
    type V = Progress;

    open spec fn view(&self) -> Progress {
        match self {
            RequestReader::AwaitingRequestLine => Progress::AwaitingRequestLine,
            RequestReader::DiscardingHeaders { route } => Progress::DiscardingHeaders { route: route@ },
            RequestReader::Complete { route } => Progress::Complete { route: route@ },
            RequestReader::Malformed => Progress::Malformed,
        }
    }
}

/// A request is malformed exactly where its first line has no space or
/// where what stands between the first space and the next is no UTF-8.
pub proof fn lemma_malformed(request: Seq<u8>)
    ensures
        request_path(first_line(request)) is None <==> !first_line(request).contains(SPACE),
        requested_route(request) is None <==> !first_line(request).contains(SPACE) || !valid_utf8(
            request_path(first_line(request))->0,
        ),
{
    lemma_position_is_first(first_line(request), SPACE);
}

/// The first line ends before the terminator that follows it: `line`, which
/// holds no line feed, is the first line of itself, of itself with a line
/// feed and of itself with a carriage return and a line feed, whatever comes
/// after. With a line feed alone `line` must not end in a carriage return,
/// which would go with the line feed.
pub proof fn lemma_first_line(line: Seq<u8>, rest: Seq<u8>)
    requires
        !line.contains(LINE_FEED),
    ensures
        first_line(line) == line,
        first_line(line + seq![CARRIAGE_RETURN, LINE_FEED] + rest) == line,
        line.len() == 0 || line.last() != CARRIAGE_RETURN ==> first_line(
            line + seq![LINE_FEED] + rest,
        ) == line,
{
    let end = line.len() as int;
    lemma_position(line, LINE_FEED, end);
    lemma_position(line + seq![CARRIAGE_RETURN, LINE_FEED] + rest, LINE_FEED, end + 1);
    lemma_position(line + seq![LINE_FEED] + rest, LINE_FEED, end);
}

/// A line of a method, a space and a path asks for that path, whatever
/// method it names and whether or not a space and more follow; here the
/// method is any bytes and the path any text whose bytes hold no space.
pub proof fn lemma_request_line(method: Seq<u8>, path: Seq<char>, version: Seq<u8>)
    requires
        !method.contains(SPACE),
        !encode_utf8(path).contains(SPACE),
    ensures
        request_path(method + seq![SPACE] + encode_utf8(path)) == Some(encode_utf8(path)),
        request_path(method + seq![SPACE] + encode_utf8(path) + seq![SPACE] + version) == Some(
            encode_utf8(path),
        ),
        valid_utf8(encode_utf8(path)),
        decode_utf8(encode_utf8(path)) == path,
{
    let token = encode_utf8(path);
    let space = method.len() as int;
    let short = method + seq![SPACE] + token;
    let long = short + seq![SPACE] + version;
    lemma_position(short, SPACE, space);
    lemma_position(long, SPACE, space);
    assert(short.skip(space + 1) =~= token);
    lemma_position(token, SPACE, token.len() as int);
    lemma_position(long.skip(space + 1), SPACE, token.len() as int);
    encode_utf8_valid_utf8(path);
    encode_utf8_decode_utf8(path);
}

/// A request whose first line is a method, a space and a path asks for that
/// path, whether the line ends with a carriage return and a line feed, with
/// a line feed or with the stream: two tokens are enough, and the terminator
/// is no part of the path. Before a line feed alone the path must not end in
/// a carriage return, which would go with the line feed.
pub proof fn lemma_two_tokens(method: Seq<u8>, path: Seq<char>, rest: Seq<u8>)
    requires
        !method.contains(SPACE) && !method.contains(LINE_FEED),
        !encode_utf8(path).contains(SPACE) && !encode_utf8(path).contains(LINE_FEED),
    ensures
        requested_route(
            method + seq![SPACE] + encode_utf8(path) + seq![CARRIAGE_RETURN, LINE_FEED] + rest,
        ) == Some(path),
        requested_route(method + seq![SPACE] + encode_utf8(path)) == Some(path),
        encode_utf8(path).len() == 0 || encode_utf8(path).last() != CARRIAGE_RETURN
            ==> requested_route(method + seq![SPACE] + encode_utf8(path) + seq![LINE_FEED] + rest)
            == Some(path),
{
    lemma_first_line(method + seq![SPACE] + encode_utf8(path), rest);
    lemma_request_line(method, path, Seq::empty());
}

/// A request whose first line is a method, a path and a version, each
/// after a space, asks for that path, whatever the method, the version and
/// the lines after the first are; here method, path and version hold no line
/// feed.
pub proof fn lemma_three_tokens(
    method: Seq<u8>,
    path: Seq<char>,
    version: Seq<u8>,
    rest: Seq<u8>,
)
    requires
        !method.contains(SPACE) && !method.contains(LINE_FEED),
        !encode_utf8(path).contains(SPACE) && !encode_utf8(path).contains(LINE_FEED),
        !version.contains(LINE_FEED),
    ensures
        requested_route(
            method + seq![SPACE] + encode_utf8(path) + seq![SPACE] + version + seq![
                CARRIAGE_RETURN,
                LINE_FEED,
            ] + rest,
        ) == Some(path),
{
    lemma_first_line(method + seq![SPACE] + encode_utf8(path) + seq![SPACE] + version, rest);
    lemma_request_line(method, path, version);
}

/// Once the first line is read, the lines that follow change neither the
/// path nor the failure, and the reader goes on until one of them ends the
/// header section.
pub proof fn lemma_headers_are_dropped(state: Progress, lines: Seq<Seq<u8>>)
    requires
        !(state is AwaitingRequestLine),
    ensures
        state.feed_all(lines).route() == state.route(),
        state.feed_all(lines) is Malformed <==> state is Malformed,
        state.feed_all(lines).wants_line() <==> state.wants_line() && forall|i: int|
            0 <= i < lines.len() ==> !ends_headers(#[trigger] lines[i]),
    decreases lines.len(),
{
    if lines.len() > 0 {
        lemma_headers_are_dropped(state.feed(lines.first()), lines.drop_first());
        assert forall|i: int| 1 <= i < lines.len() implies lines[i] == lines.drop_first()[i - 1] by {}
    }
}

/// Of the lines of a request only the first is interpreted: it alone
/// decides the path and whether the request is malformed. The reader wants
/// more lines until one after the first ends the header section.
pub proof fn lemma_only_first_line_counts(lines: Seq<Seq<u8>>)
    requires
        lines.len() > 0,
    ensures
        Progress::AwaitingRequestLine.feed_all(lines).route() == requested_route(lines.first()),
        Progress::AwaitingRequestLine.feed_all(lines) is Malformed <==> requested_route(
            lines.first(),
        ) is None,
        Progress::AwaitingRequestLine.feed_all(lines).wants_line() <==> requested_route(
            lines.first(),
        ) is Some && forall|i: int| 1 <= i < lines.len() ==> !ends_headers(#[trigger] lines[i]),
{
    lemma_headers_are_dropped(Progress::AwaitingRequestLine.feed(lines.first()), lines.drop_first());
    assert forall|i: int| 1 <= i < lines.len() implies lines[i] == lines.drop_first()[i - 1] by {}
}

/// Where the first `byte` at or after `from` stands in `bytes`, looking no
/// further than `limit`.
fn find(bytes: &[u8], from: usize, limit: usize, byte: u8) -> (at: usize)
    requires
        from <= limit <= bytes@.len(),
    ensures
        from <= at <= limit,
        forall|i: int| from <= i < at ==> bytes@[i] != byte,
        at < limit ==> bytes@[at as int] == byte,
{
    let mut at = from;
    while at < limit && bytes[at] != byte
        invariant
            from <= at <= limit <= bytes@.len(),
            forall|i: int| from <= i < at ==> bytes@[i] != byte,
        decreases limit - at,
    {
        at += 1;
    }
    at
}

/// Extracts the requested path from `request`.
///
/// Only the first line counts, and it may be all there is. Whatever stands
/// between its first space and the next is the path, also where that is
/// nothing; without a second space the path runs to the end of the line,
/// which is before the line feed and before the carriage return that may
/// stand in front of it. The path must be UTF-8; the method and what follows
/// the path need not be.
pub fn read_request(request: &[u8]) -> (route: Result<Route, MalformedRequest>)
    ensures
        match requested_route(request@) {
            Some(path) => route matches Ok(r) && r@ == path,
            None => route is Err,
        },
{
    let n = request.len();
    let line_feed = find(request, 0, n, LINE_FEED);
    let end = if 0 < line_feed && line_feed < n && request[line_feed - 1] == CARRIAGE_RETURN {
        line_feed - 1
    } else {
        line_feed
    };
    let ghost line = first_line(request@);
    proof {
        lemma_position(request@, LINE_FEED, line_feed as int);
    }
    let space = find(request, 0, end, SPACE);
    proof {
        lemma_position(line, SPACE, space as int);
    }
    if space == end {
        return Err(MalformedRequest);
    }
    let stop = find(request, space + 1, end, SPACE);
    let ghost rest = line.skip(space + 1);
    proof {
        lemma_position(rest, SPACE, stop - space - 1);
    }
    let mut path: Vec<u8> = Vec::new();
    let mut i = space + 1;
    while i < stop
        invariant
            space < i <= stop <= end <= request@.len(),
            path@ == request@.subrange(space + 1, i as int),
        decreases stop - i,
    {
        path.push(request[i]);
        i += 1;
    }
    assert(path@ =~= rest.take(stop - space - 1));
    match decode(path) {
        Some(route) => Ok(route),
        None => Err(MalformedRequest),
    }
}

/// Whether `line`, as it was read, ends the header section.
pub fn is_end_of_headers(line: &[u8]) -> (end: bool)
    ensures
        end == ends_headers(line@),
{
    let n = line.len();
    n == 0 || (n == 1 && line[0] == LINE_FEED) || (n == 2 && line[0] == CARRIAGE_RETURN && line[1]
        == LINE_FEED)
}

impl RequestReader {
    /// A reader that has read nothing.
    pub fn new() -> (reader: Self)
        ensures
            reader@ == Progress::AwaitingRequestLine,
    {
        RequestReader::AwaitingRequestLine
    }

    /// Takes in the next line that was read, with its terminator; an empty
    /// `line` says that the stream has ended.
    pub fn feed(self, line: &[u8]) -> (next: Self)
        ensures
            next@ == self@.feed(line@),
    {
        match self {
            RequestReader::AwaitingRequestLine => match read_request(line) {
                Ok(route) => RequestReader::DiscardingHeaders { route },
                Err(_) => RequestReader::Malformed,
            },
            RequestReader::DiscardingHeaders { route } => if is_end_of_headers(line) {
                RequestReader::Complete { route }
            } else {
                RequestReader::DiscardingHeaders { route }
            },
            RequestReader::Complete { route } => RequestReader::Complete { route },
            RequestReader::Malformed => RequestReader::Malformed,
        }
    }

    /// Whether another line is to be read and fed.
    pub fn wants_line(&self) -> (wanted: bool)
        ensures
            wanted == self@.wants_line(),
    {
        match self {
            RequestReader::AwaitingRequestLine => true,
            RequestReader::DiscardingHeaders { .. } => true,
            _ => false,
        }
    }

    /// The path that was read, unless the first line held none or is yet to
    /// come.
    pub fn finish(self) -> (route: Result<Route, MalformedRequest>)
        ensures
            match self@.route() {
                Some(path) => route matches Ok(r) && r@ == path,
                None => route is Err,
            },
    {
        match self {
            RequestReader::DiscardingHeaders { route } => Ok(route),
            RequestReader::Complete { route } => Ok(route),
            _ => Err(MalformedRequest),
        }
    }
}

} // verus!
