//! What a client asks for, what the daemon answers, and how both are sent: as
//! frames of a length and a body.

use crate::error::{AppError, AppErrorView};
use vstd::prelude::*;

verus! {

/// What a client asks for.
#[derive(Debug)]
pub enum Request {
    ListRequest { all: bool },
    StopRequest { container_id: String, timeout: u64 },
    RunRequest { command: Vec<String>, memory_limit: String, interactive: bool },
    RemoveRequest { container_id: String },
}

#[verifier::ext_equal]
pub enum RequestView {
    ListRequest { all: bool },
    StopRequest { container_id: Seq<char>, timeout: u64 },
    RunRequest { command: Seq<Seq<char>>, memory_limit: Seq<char>, interactive: bool },
    RemoveRequest { container_id: Seq<char> },
}

impl View for Request {
    type V = RequestView;

    open spec fn view(&self) -> RequestView {
        match self {
            Request::ListRequest { all } => RequestView::ListRequest { all: *all },
            Request::StopRequest { container_id, timeout } => RequestView::StopRequest {
                container_id: container_id@,
                timeout: *timeout,
            },
            Request::RunRequest { command, memory_limit, interactive } => RequestView::RunRequest {
                command: command.deep_view(),
                memory_limit: memory_limit@,
                interactive: *interactive,
            },
            Request::RemoveRequest { container_id } => RequestView::RemoveRequest {
                container_id: container_id@,
            },
        }
    }
}

/// The timeout of a stop request that names none, in seconds.
pub fn default_timeout() -> (seconds: u64)
    ensures
        seconds == 10,
{
    10
}

/// What the daemon answers.
#[derive(Debug)]
pub enum Response {
    ListResponse { items: Vec<String> },
    StopResponse { container_id: String, state: String },
    RunResponse { container_id: String },
    ErrorResponse { message: String },
}

#[verifier::ext_equal]
pub enum ResponseView {
    ListResponse { items: Seq<Seq<char>> },
    StopResponse { container_id: Seq<char>, state: Seq<char> },
    RunResponse { container_id: Seq<char> },
    ErrorResponse { message: Seq<char> },
}

impl View for Response {
    type V = ResponseView;

    open spec fn view(&self) -> ResponseView {
        match self {
            Response::ListResponse { items } => ResponseView::ListResponse {
                items: items.deep_view(),
            },
            Response::StopResponse { container_id, state } => ResponseView::StopResponse {
                container_id: container_id@,
                state: state@,
            },
            Response::RunResponse { container_id } => ResponseView::RunResponse {
                container_id: container_id@,
            },
            Response::ErrorResponse { message } => ResponseView::ErrorResponse {
                message: message@,
            },
        }
    }
}

/// The most bytes that a body is accepted with.
pub const MAX_BODY: u32 = 1_000_000;

/// How many bytes tell the length of a body.
pub const HEADER: usize = 4;

/// The four bytes of `n`, the highest first.
pub open spec fn big_endian(n: nat) -> Seq<u8> {
    seq![
        (n / 0x100_0000 % 0x100) as u8,
        (n / 0x1_0000 % 0x100) as u8,
        (n / 0x100 % 0x100) as u8,
        (n % 0x100) as u8,
    ]
}

/// The number whose bytes `header` starts with, the highest first.
pub open spec fn header_value(header: Seq<u8>) -> nat {
    (header[0] * 0x100_0000 + header[1] * 0x1_0000 + header[2] * 0x100 + header[3]) as nat
}

/// A body as it is sent: the low four bytes of its length, then its bytes.
pub open spec fn frame(body: Seq<u8>) -> Seq<u8> {
    big_endian(body.len() % 0x1_0000_0000) + body
}

fn big_endian_bytes(n: u32) -> (bytes: Vec<u8>)
    ensures
        bytes@ == big_endian(n as nat),
{
    vec![
        (n / 0x100_0000 % 0x100) as u8,
        (n / 0x1_0000 % 0x100) as u8,
        (n / 0x100 % 0x100) as u8,
        (n % 0x100) as u8,
    ]
}

/// The bytes that are sent for a body.
pub fn send_json(json: Vec<u8>) -> (sent: Vec<u8>)
    ensures
        sent@ == frame(json@),
{
    let len: u64 = json.len() as u64;
    let low: u32 = (len % 0x1_0000_0000) as u32;
    let mut json = json;
    let mut sent = big_endian_bytes(low);
    sent.append(&mut json);
    sent
}

/// What the bytes that have come in so far amount to.
pub enum Reception {
    /// So many more are to be read, and no others.
    Wants(usize),
    /// They are a frame with this body.
    Body(Vec<u8>),
}

#[verifier::ext_equal]
pub enum ReceptionView {
    Wants(nat),
    Body(Seq<u8>),
}

impl View for Reception {
    type V = ReceptionView;

    open spec fn view(&self) -> ReceptionView {
        match self {
            Reception::Wants(n) => ReceptionView::Wants(*n as nat),
            Reception::Body(body) => ReceptionView::Body(body@),
        }
    }
}

/// What the bytes that have come in so far amount to. A body that is announced
/// as too large is refused before any of it is read.
pub open spec fn reception(received: Seq<u8>) -> Result<ReceptionView, AppErrorView> {
    if received.len() < HEADER {
        Ok(ReceptionView::Wants((HEADER - received.len()) as nat))
    } else {
        let len = header_value(received);
        if len > MAX_BODY {
            Err(AppErrorView::MessageTooLarge(len))
        } else if received.len() < HEADER + len {
            Ok(ReceptionView::Wants((HEADER + len - received.len()) as nat))
        } else {
            Ok(ReceptionView::Body(received.subrange(HEADER as int, HEADER + len)))
        }
    }
}

/// What the bytes that have come in so far amount to.
pub fn recv_json(received: &Vec<u8>) -> (reception: Result<Reception, AppError>)
    ensures
        match reception {
            Ok(r) => self::reception(received@) == Ok::<ReceptionView, AppErrorView>(r@),
            Err(e) => self::reception(received@) == Err::<ReceptionView, AppErrorView>(e@),
        },
{
    let have: usize = received.len();
    if have < HEADER {
        return Ok(Reception::Wants(HEADER - have));
    }
    let len: u32 = received[0] as u32 * 0x100_0000 + received[1] as u32 * 0x1_0000
        + received[2] as u32 * 0x100 + received[3] as u32;
    if len > MAX_BODY {
        return Err(AppError::MessageTooLarge(len));
    }
    let total: usize = HEADER + len as usize;
    if have < total {
        return Ok(Reception::Wants(total - have));
    }
    let mut body: Vec<u8> = Vec::new();
    let mut i: usize = HEADER;
    while i < total
        invariant
            HEADER <= i <= total <= received.len(),
            body@ == received@.subrange(HEADER as int, i as int),
        decreases total - i,
    {
        body.push(received[i]);
        assert(body@ =~= received@.subrange(HEADER as int, i + 1));
        i += 1;
    }
    Ok(Reception::Body(body))
}

proof fn lemma_header(n: nat, rest: Seq<u8>)
    requires
        n < 0x1_0000_0000,
    ensures
        big_endian(n).len() == HEADER,
        header_value(big_endian(n) + rest) == n,
{
    let header = big_endian(n);
    assert((header + rest)[0] == header[0]);
    assert((header + rest)[1] == header[1]);
    assert((header + rest)[2] == header[2]);
    assert((header + rest)[3] == header[3]);
}

/// A body that is not too large is received as it was sent, whatever is sent
/// after it.
pub proof fn sent_body_is_received(body: Seq<u8>, rest: Seq<u8>)
    requires
        body.len() <= MAX_BODY,
    ensures
        reception(frame(body) + rest) == Ok::<ReceptionView, AppErrorView>(
            ReceptionView::Body(body),
        ),
        reception(frame(body)) == Ok::<ReceptionView, AppErrorView>(ReceptionView::Body(body)),
{
    lemma_header(body.len(), body + rest);
    assert(frame(body) + rest =~= big_endian(body.len()) + (body + rest));
    assert((frame(body) + rest).subrange(HEADER as int, HEADER + body.len()) =~= body);
    lemma_header(body.len(), body);
    assert(frame(body).subrange(HEADER as int, HEADER + body.len()) =~= body);
}

/// While a frame is coming in, more is wanted, and never more than belongs to
/// it: who reads what is wanted reads the frame to its end and no further.
pub proof fn frame_is_read_to_its_end(body: Seq<u8>, n: nat)
    requires
        body.len() <= MAX_BODY,
        n < frame(body).len(),
    ensures
        match reception(frame(body).take(n as int)) {
            Ok(ReceptionView::Wants(more)) => 0 < more && n + more <= frame(body).len(),
            _ => false,
        },
{
    lemma_header(body.len(), body);
    let part = frame(body).take(n as int);
    if n >= HEADER {
        lemma_header(body.len(), body.take(n - HEADER));
        assert(part =~= big_endian(body.len()) + body.take(n - HEADER));
    }
}

/// A body that is too large is refused as soon as its length is known. (The
/// length of a body of four gibibytes and more does not fit in a frame.)
pub proof fn large_body_is_refused(body: Seq<u8>, n: nat)
    requires
        MAX_BODY < body.len() < 0x1_0000_0000,
        HEADER <= n <= frame(body).len(),
    ensures
        reception(frame(body).take(n as int)) == Err::<ReceptionView, AppErrorView>(
            AppErrorView::MessageTooLarge(body.len()),
        ),
{
    lemma_header(body.len(), body.take(n - HEADER));
    assert(frame(body).take(n as int) =~= big_endian(body.len()) + body.take(n - HEADER));
}

/// What is sent is a body behind four bytes that tell its length, the highest
/// first, up to what four bytes can tell.
pub proof fn frame_tells_its_length(body: Seq<u8>)
    ensures
        frame(body).len() == 4 + body.len(),
        frame(body).skip(4) == body,
        frame(body)[0] * 16_777_216 + frame(body)[1] * 65_536 + frame(body)[2] * 256
            + frame(body)[3] == body.len() % 4_294_967_296,
{
    let n = body.len() % 0x1_0000_0000;
    lemma_header(n, body);
    assert(frame(body).skip(4) =~= body);
}

/// What has come in amounts to what its first four bytes tell: nothing is known
/// before they are there; more than a million bytes are refused, whatever else
/// has come in; and else so many are wanted as are missing, and the body is what
/// follows the four, up to the length that they tell.
pub proof fn reception_goes_by_the_length(received: Seq<u8>)
    ensures
        received.len() < 4 ==> reception(received) == Ok::<ReceptionView, AppErrorView>(
            ReceptionView::Wants((4 - received.len()) as nat),
        ),
        received.len() >= 4 ==> {
            let told = (received[0] * 16_777_216 + received[1] * 65_536 + received[2] * 256
                + received[3]) as nat;
            &&& told > 1_000_000 ==> reception(received) == Err::<ReceptionView, AppErrorView>(
                AppErrorView::MessageTooLarge(told),
            )
            &&& told <= 1_000_000 && received.len() < 4 + told ==> reception(received) == Ok::<
                ReceptionView,
                AppErrorView,
            >(ReceptionView::Wants((4 + told - received.len()) as nat))
            &&& told <= 1_000_000 && received.len() >= 4 + told ==> reception(received) == Ok::<
                ReceptionView,
                AppErrorView,
            >(ReceptionView::Body(received.subrange(4, (4 + told) as int)))
        },
{
}

/// A request, an answer and what has come in are all of what they hold.
pub proof fn message_is_seen_whole(request: Request, response: Response, reception: Reception)
    ensures
        request matches Request::ListRequest { all } ==> request@ == (RequestView::ListRequest {
            all,
        }),
        request matches Request::StopRequest { container_id, timeout } ==> request@ == (
        RequestView::StopRequest { container_id: container_id@, timeout }),
        request matches Request::RunRequest { command, memory_limit, interactive } ==> request@ == (
        RequestView::RunRequest {
            command: command.deep_view(),
            memory_limit: memory_limit@,
            interactive,
        }),
        request matches Request::RemoveRequest { container_id } ==> request@ == (
        RequestView::RemoveRequest { container_id: container_id@ }),
        response matches Response::ListResponse { items } ==> response@ == (
        ResponseView::ListResponse { items: items.deep_view() }),
        response matches Response::StopResponse { container_id, state } ==> response@ == (
        ResponseView::StopResponse { container_id: container_id@, state: state@ }),
        response matches Response::RunResponse { container_id } ==> response@ == (
        ResponseView::RunResponse { container_id: container_id@ }),
        response matches Response::ErrorResponse { message } ==> response@ == (
        ResponseView::ErrorResponse { message: message@ }),
        reception matches Reception::Wants(n) ==> reception@ == ReceptionView::Wants(n as nat),
        reception matches Reception::Body(body) ==> reception@ == ReceptionView::Body(body@),
{
}

} // verus!
