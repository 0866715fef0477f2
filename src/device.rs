//! Command framing and response checking for the key's command channel.
//! The channel itself is handed in as a function from request bytes to
//! response bytes (or a transport error message).
use vstd::prelude::*;

verus! {

/// Instruction that selects an application on the key.
pub const CMD_SELECT: u8 = 0xa4;

/// Instruction that reads the configuration blob.
pub const CMD_READ_CONFIG: u8 = 0x1d;

/// Instruction that writes the configuration blob.
pub const CMD_WRITE_CONFIG: u8 = 0x1c;

/// The status of a successful command, as `send` reads status words: the
/// trailer `90 00` reads as 0x0090.
pub const STATUS_OK: u16 = 0x90;

/// Why an exchange failed.
#[derive(Debug)]
pub enum SendError {
    /// The channel could not transmit or receive; its message.
    Transport(String),
    /// The response holds fewer than two bytes, so no status word.
    ShortResponse,
    /// The response's status word is not the one expected; the status seen.
    UnexpectedStatus(u16),
}

/// A request: the header, one byte with the payload's length, the payload.
pub open spec fn frame(header: Seq<u8>, payload: Seq<u8>) -> Seq<u8> {
    header + seq![payload.len() as u8] + payload
}

/// The status word that ends a response of at least two bytes. The bytes are
/// taken off the end one at a time and the first taken off is the high byte.
pub open spec fn status_of(resp: Seq<u8>) -> u16 {
    ((resp[resp.len() - 1] as u16) << 8u16) | (resp[resp.len() - 2] as u16)
}

/// What checking `resp` against the status `expect` gives.
pub open spec fn response_result(
    resp: Seq<u8>,
    expect: u16,
    r: Result<(u16, Vec<u8>), SendError>,
) -> bool {
    if resp.len() < 2 {
        r == Err::<(u16, Vec<u8>), SendError>(SendError::ShortResponse)
    } else if status_of(resp) != expect {
        r == Err::<(u16, Vec<u8>), SendError>(SendError::UnexpectedStatus(status_of(resp)))
    } else {
        r matches Ok((sw, payload)) && sw == expect && payload@ == resp.take(resp.len() - 2)
    }
}

/// What an exchange gives once the channel has answered with `out`.
pub open spec fn channel_result(
    out: Result<Vec<u8>, String>,
    expect: u16,
    r: Result<(u16, Vec<u8>), SendError>,
) -> bool {
    match out {
        Ok(resp) => response_result(resp@, expect, r),
        Err(e) => r == Err::<(u16, Vec<u8>), SendError>(SendError::Transport(e)),
    }
}

/// `r` is what an exchange gives when `transmit` is handed the bytes `req`
/// and answers in one of the ways it may.
pub open spec fn exchange<F: FnOnce(Vec<u8>) -> Result<Vec<u8>, String>>(
    transmit: F,
    req: Seq<u8>,
    expect: u16,
    r: Result<(u16, Vec<u8>), SendError>,
) -> bool {
    exists|q: Vec<u8>, out: Result<Vec<u8>, String>|
        #[trigger] call_ensures(transmit, (q,), out) && q@ == req && channel_result(out, expect, r)
}

/// Builds a request from a header and a payload of under 256 bytes.
pub fn build_frame(header: &[u8], payload: &[u8]) -> (r: Vec<u8>)
    requires
        payload@.len() < 256,
        header@.len() + 1 + payload@.len() <= usize::MAX,
    ensures
        r@ == frame(header@, payload@),
{
    let mut req: Vec<u8> = Vec::new();
    let mut i: usize = 0;
    while i < header.len()
        invariant
            i <= header@.len(),
            req@ == header@.take(i as int),
        decreases header@.len() - i,
    {
        req.push(header[i]);
        assert(header@.take(i + 1) =~= header@.take(i as int).push(header@[i as int]));
        i = i + 1;
    }
    assert(header@.take(i as int) =~= header@);
    req.push(payload.len() as u8);
    let ghost head = req@;
    let mut j: usize = 0;
    while j < payload.len()
        invariant
            j <= payload@.len(),
            head == header@ + seq![payload@.len() as u8],
            req@ == head + payload@.take(j as int),
        decreases payload@.len() - j,
    {
        req.push(payload[j]);
        assert(payload@.take(j + 1) =~= payload@.take(j as int).push(payload@[j as int]));
        j = j + 1;
    }
    assert(payload@.take(j as int) =~= payload@);
    assert(req@ =~= frame(header@, payload@));
    req
}

/// Splits a response into its payload and its status word, and checks the
/// status against `expect_sw`.
pub fn check_response(resp: Vec<u8>, expect_sw: u16) -> (r: Result<(u16, Vec<u8>), SendError>)
    ensures
        response_result(resp@, expect_sw, r),
{
    let mut buf = resp;
    if buf.len() < 2 {
        return Err(SendError::ShortResponse);
    }
    let sw1 = buf.pop().unwrap() as u16;
    let sw2 = buf.pop().unwrap() as u16;
    let sw = (sw1 << 8u16) | sw2;
    assert(buf@ =~= resp@.take(resp@.len() - 2));
    if sw != expect_sw {
        return Err(SendError::UnexpectedStatus(sw));
    }
    Ok((sw, buf))
}

/// Sends `header` and `payload` as one request through `transmit` and checks
/// the response against the status `expect_sw`. On success, the status and
/// the response's payload.
pub fn send<F: FnOnce(Vec<u8>) -> Result<Vec<u8>, String>>(
    transmit: F,
    header: &[u8],
    payload: &[u8],
    expect_sw: u16,
) -> (r: Result<(u16, Vec<u8>), SendError>)
    requires
        payload@.len() < 256,
        header@.len() + 1 + payload@.len() <= usize::MAX,
        forall|q: Vec<u8>| call_requires(transmit, (q,)),
    ensures
        exchange(transmit, frame(header@, payload@), expect_sw, r),
{
    let req = build_frame(header, payload);
    let ghost q = req;
    let out = transmit(req);
    let r = match out {
        Ok(resp) => check_response(resp, expect_sw),
        Err(e) => Err(SendError::Transport(e)),
    };
    assert(call_ensures(transmit, (q,), out) && q@ == frame(header@, payload@) && channel_result(
        out,
        expect_sw,
        r,
    ));
    r
}

/// The header of a command: class 0, the instruction, the first parameter, 0.
pub open spec fn command(ins: u8, p1: u8) -> Seq<u8> {
    seq![0u8, ins, p1, 0u8]
}

/// The failure of an exchange, with its success reduced to `()`.
pub open spec fn without_payload(r: Result<(u16, Vec<u8>), SendError>) -> Result<(), SendError> {
    match r {
        Ok(_) => Ok(()),
        Err(e) => Err(e),
    }
}

/// The failure of an exchange, with its success reduced to the payload.
pub open spec fn payload_only(r: Result<(u16, Vec<u8>), SendError>) -> Result<Vec<u8>, SendError> {
    match r {
        Ok((_, p)) => Ok(p),
        Err(e) => Err(e),
    }
}

/// Selects the application `aid` on the key.
pub fn select<F: FnOnce(Vec<u8>) -> Result<Vec<u8>, String>>(transmit: F, aid: &[u8]) -> (r: Result<
    (),
    SendError,
>)
    requires
        aid@.len() < 256,
        forall|q: Vec<u8>| call_requires(transmit, (q,)),
    ensures
        exists|x: Result<(u16, Vec<u8>), SendError>|
            #[trigger] exchange(transmit, frame(command(CMD_SELECT, 4), aid@), STATUS_OK, x)
                && r == without_payload(x),
{
    let header: [u8; 4] = [0, CMD_SELECT, 4, 0];
    let x = send(transmit, header.as_slice(), aid, STATUS_OK);
    assert(header@ =~= command(CMD_SELECT, 4));
    match x {
        Ok(_) => Ok(()),
        Err(e) => Err(e),
    }
}

/// Reads the configuration blob of the selected application.
pub fn read_config<F: FnOnce(Vec<u8>) -> Result<Vec<u8>, String>>(transmit: F) -> (r: Result<
    Vec<u8>,
    SendError,
>)
    requires
        forall|q: Vec<u8>| call_requires(transmit, (q,)),
    ensures
        exists|x: Result<(u16, Vec<u8>), SendError>|
            #[trigger] exchange(
                transmit,
                frame(command(CMD_READ_CONFIG, 0), Seq::empty()),
                STATUS_OK,
                x,
            ) && r == payload_only(x),
{
    let header: [u8; 4] = [0, CMD_READ_CONFIG, 0, 0];
    let empty: [u8; 0] = [];
    let x = send(transmit, header.as_slice(), empty.as_slice(), STATUS_OK);
    assert(header@ =~= command(CMD_READ_CONFIG, 0));
    assert(empty@ =~= Seq::<u8>::empty());
    match x {
        Ok((_, p)) => Ok(p),
        Err(e) => Err(e),
    }
}

/// Writes a configuration blob of under 256 bytes to the selected application.
pub fn write_config<F: FnOnce(Vec<u8>) -> Result<Vec<u8>, String>>(transmit: F, data: &[u8]) -> (r:
    Result<(), SendError>)
    requires
        data@.len() < 256,
        forall|q: Vec<u8>| call_requires(transmit, (q,)),
    ensures
        exists|x: Result<(u16, Vec<u8>), SendError>|
            #[trigger] exchange(
                transmit,
                frame(command(CMD_WRITE_CONFIG, 0), data@),
                STATUS_OK,
                x,
            ) && r == without_payload(x),
{
    let header: [u8; 4] = [0, CMD_WRITE_CONFIG, 0, 0];
    let x = send(transmit, header.as_slice(), data, STATUS_OK);
    assert(header@ =~= command(CMD_WRITE_CONFIG, 0));
    match x {
        Ok(_) => Ok(()),
        Err(e) => Err(e),
    }
}

} // verus!
