use vstd::prelude::*;

verus! {

/// The kind of a control request.
#[derive(Clone, Copy, Debug, PartialEq, Eq, Structural)]
pub enum RequestType {
    Standard,
    Class,
    Vendor,
    Reserved,
}

/// Whom a control request addresses.
#[derive(Clone, Copy, Debug, PartialEq, Eq, Structural)]
pub enum Recipient {
    Device,
    Interface,
    Endpoint,
    Other,
    Reserved,
}

/// What a control request says about its kind, its addressee and its meaning.
#[derive(Clone, Copy, Debug, PartialEq, Eq, Structural)]
pub struct Request {
    pub request_type: RequestType,
    pub recipient: Recipient,
    /// The request code.
    pub request: u8,
    /// For a request to an interface, the interface number.
    pub index: u16,
}

/// Answer to a request that sends data to the device.
#[derive(Clone, Copy, Debug, PartialEq, Eq, Structural)]
pub enum OutResponse {
    Accepted,
    Rejected,
}

/// Answer to a request for data.
#[derive(Clone, Copy, Debug)]
pub enum InResponse<'a> {
    /// The data.
    Accepted(&'a [u8]),
    Rejected,
}

/// Length of a line coding, in bytes.
pub const LINE_CODING_LEN: usize = 7;

/// CDC request that sets the line coding.
pub const SET_LINE_CODING: u8 = 0x20;

/// CDC request that asks for the line coding.
pub const GET_LINE_CODING: u8 = 0x21;

/// CDC request that sets the control line state.
pub const SET_CONTROL_LINE_STATE: u8 = 0x22;

/// Answers the control requests for the defmt interface and serves its name.
///
/// The requests that set something are accepted and have no effect: a host that opens the port
/// is not refused, and what it sets does not matter to the byte stream.
pub struct DefmtStringHandler {
    pub defmt_str: u8,
    pub comm_if: u8,
    pub line_coding: [u8; LINE_CODING_LEN],
}

impl DefmtStringHandler {
    /// Whether `req` is a class request to the handler's own comm interface.
    pub open spec fn addressed_by(self, req: Request) -> bool {
        &&& req.request_type == RequestType::Class
        &&& req.recipient == Recipient::Interface
        &&& req.index == self.comm_if
    }

    /// How many bytes of the line coding go into a buffer of `room` bytes.
    pub open spec fn coding_len(room: int) -> int {
        if room <= LINE_CODING_LEN {
            room
        } else {
            LINE_CODING_LEN as int
        }
    }

    fn is_addressed_by(&self, req: Request) -> (r: bool)
        ensures
            r == self.addressed_by(req),
    {
        req.request_type == RequestType::Class && req.recipient == Recipient::Interface
            && req.index == self.comm_if as u16
    }

    /// The interface name, for its string index.
    pub fn get_string(&self, index: u8, _lang_id: u16) -> (r: Option<&str>)
        ensures
            index == self.defmt_str ==> r is Some && r->0@ == "defmt"@,
            index != self.defmt_str ==> r is None,
    {
        if index == self.defmt_str {
            Some("defmt")
        } else {
            None
        }
    }

    /// Accepts the requests that set the line coding and the control line state; leaves all
    /// others to other handlers.
    pub fn control_out(&self, req: Request, _data: &[u8]) -> (r: Option<OutResponse>)
        ensures
            r == if self.addressed_by(req) && (req.request == SET_LINE_CODING || req.request
                == SET_CONTROL_LINE_STATE) {
                Some(OutResponse::Accepted)
            } else {
                None
            },
    {
        if !self.is_addressed_by(req) {
            return None;
        }
        if req.request == SET_LINE_CODING || req.request == SET_CONTROL_LINE_STATE {
            Some(OutResponse::Accepted)
        } else {
            None
        }
    }

    /// Answers the request for the line coding with as much of it as `buf` takes; leaves all
    /// others to other handlers.
    pub fn control_in<'a>(&self, req: Request, buf: &'a mut [u8]) -> (r: Option<InResponse<'a>>)
        ensures
            r is Some <==> self.addressed_by(req) && req.request == GET_LINE_CODING,
            r is Some ==> {
                let n = Self::coding_len(old(buf)@.len() as int);
                &&& r->0 is Accepted
                &&& r->0->Accepted_0@ == self.line_coding@.take(n)
                &&& final(buf)@ == self.line_coding@.take(n) + old(buf)@.skip(n)
            },
            r is None ==> final(buf)@ == old(buf)@,
            final(buf)@.len() == old(buf)@.len(),
    {
        if !self.is_addressed_by(req) {
            return None;
        }
        if req.request != GET_LINE_CODING {
            return None;
        }
        let n: usize = if buf.len() <= LINE_CODING_LEN {
            buf.len()
        } else {
            LINE_CODING_LEN
        };
        let mut i: usize = 0;
        while i < n
            invariant
                i <= n <= LINE_CODING_LEN,
                n <= old(buf)@.len(),
                buf@ == self.line_coding@.take(i as int) + old(buf)@.skip(i as int),
            decreases n - i,
        {
            buf[i] = self.line_coding[i];
            i = i + 1;
            assert(buf@ =~= self.line_coding@.take(i as int) + old(buf)@.skip(i as int));
        }
        let data: &'a [u8] = vstd::slice::slice_subrange(buf, 0, n);
        assert(data@ =~= self.line_coding@.take(n as int));
        Some(InResponse::Accepted(data))
    }
}

/// `control_in` answers the request for the line coding, and no other, of its own comm interface.
/// The answer is the whole line coding, all 7 bytes, where the buffer has room for them, and else
/// as many of its first bytes as the buffer is long. The rest of the buffer stays.
pub proof fn lemma_line_coding_is_answered<'a>(
    h: &DefmtStringHandler,
    req: Request,
    buf: &'a mut [u8],
    r: Option<InResponse<'a>>,
)
    requires
        call_ensures(DefmtStringHandler::control_in, (h, req, buf), r),
    ensures
        r is Some <==> {
            &&& req.request_type == RequestType::Class
            &&& req.recipient == Recipient::Interface
            &&& req.index == h.comm_if
            &&& req.request == 0x21
        },
        r is Some ==> r->0 is Accepted,
        r is Some && old(buf)@.len() >= 7 ==> r->0->Accepted_0@ == h.line_coding@,
        r is Some ==> r->0->Accepted_0@.len() == if old(buf)@.len() < 7 {
            old(buf)@.len() as int
        } else {
            7
        },
        r is Some ==> forall|j: int|
            0 <= j < r->0->Accepted_0@.len() ==> #[trigger] r->0->Accepted_0@[j]
                == h.line_coding@[j],
        r is Some ==> forall|j: int|
            0 <= j < old(buf)@.len() ==> #[trigger] final(buf)@[j] == if j < 7 {
                h.line_coding@[j]
            } else {
                old(buf)@[j]
            },
        r is None ==> final(buf)@ == old(buf)@,
        final(buf)@.len() == old(buf)@.len(),
{
    assert(h.line_coding@.take(7) =~= h.line_coding@);
}

/// What goes into a buffer of `room` bytes of the 7 that a line coding has: all of them if there
/// is room for them, and else as many as there is room for.
pub proof fn lemma_line_coding_length(room: int)
    ensures
        room >= 7 ==> DefmtStringHandler::coding_len(room) == 7,
        0 <= room < 7 ==> DefmtStringHandler::coding_len(room) == room,
{
}

/// `control_out` accepts the two requests that set something, of its own comm interface, whatever
/// data comes with them, and leaves every other request alone.
pub proof fn lemma_set_requests_are_accepted(
    h: &DefmtStringHandler,
    req: Request,
    data: &[u8],
    r: Option<OutResponse>,
)
    requires
        call_ensures(DefmtStringHandler::control_out, (h, req, data), r),
    ensures
        r == Some(OutResponse::Accepted) <==> {
            &&& req.request_type == RequestType::Class
            &&& req.recipient == Recipient::Interface
            &&& req.index == h.comm_if
            &&& req.request == 0x20 || req.request == 0x22
        },
        r != Some(OutResponse::Accepted) ==> r is None,
{
}

/// A request goes to the handler exactly if it is a class request to its comm interface.
pub proof fn lemma_whom_a_request_addresses(h: DefmtStringHandler, req: Request)
    ensures
        h.addressed_by(req) <==> req.request_type == RequestType::Class && req.recipient
            == Recipient::Interface && req.index == h.comm_if,
{
}

} // verus!
