//! A TCP connection in the saved state of the machine: state, sequence numbers,
//! windows, congestion control, the data on their way in both directions, RTO and
//! timers.
use vstd::prelude::*;
use crate::bytes::{copy_range, queue_of};
use crate::net::addr::{Flow, SocketAddrV4, VirtualTime};
use crate::net::events::CloseReason;
use crate::net::tcp::{Conn, RttSample, State, Tcb, TcpConn, RX_CAPACITY};
use crate::snapshot::{append, fits, tokens, Fault, Field, Kind, Token};

verus! {

/// The number of a state.
pub open spec fn state_code(s: State) -> u8 {
    match s {
        State::Connecting => 0,
        State::SynReceived => 1,
        State::Established => 2,
        State::CloseWait => 3,
        State::LastAck => 4,
        State::FinWait1 => 5,
        State::FinWait2 => 6,
        State::Closing => 7,
        State::TimeWait => 8,
        State::Closed => 9,
        State::SynSent => 10,
    }
}

/// The state of a number.
pub open spec fn state_of(v: u8) -> Option<State> {
    match v {
        0 => Some(State::Connecting),
        1 => Some(State::SynReceived),
        2 => Some(State::Established),
        3 => Some(State::CloseWait),
        4 => Some(State::LastAck),
        5 => Some(State::FinWait1),
        6 => Some(State::FinWait2),
        7 => Some(State::Closing),
        8 => Some(State::TimeWait),
        9 => Some(State::Closed),
        10 => Some(State::SynSent),
        _ => None,
    }
}

fn code_of_state(s: State) -> (r: u8)
    ensures
        r == state_code(s),
{
    match s {
        State::Connecting => 0,
        State::SynReceived => 1,
        State::Established => 2,
        State::CloseWait => 3,
        State::LastAck => 4,
        State::FinWait1 => 5,
        State::FinWait2 => 6,
        State::Closing => 7,
        State::TimeWait => 8,
        State::Closed => 9,
        State::SynSent => 10,
    }
}

fn state_from(v: u8) -> (r: Option<State>)
    ensures
        r == state_of(v),
{
    match v {
        0 => Some(State::Connecting),
        1 => Some(State::SynReceived),
        2 => Some(State::Established),
        3 => Some(State::CloseWait),
        4 => Some(State::LastAck),
        5 => Some(State::FinWait1),
        6 => Some(State::FinWait2),
        7 => Some(State::Closing),
        8 => Some(State::TimeWait),
        9 => Some(State::Closed),
        10 => Some(State::SynSent),
        _ => None,
    }
}

/// The number of a reason for closing.
pub open spec fn reason_code(c: CloseReason) -> u8 {
    match c {
        CloseReason::Normal => 0,
        CloseReason::GuestReset => 1,
        CloseReason::RemoteReset => 2,
        CloseReason::Refused => 3,
        CloseReason::Timeout => 4,
        CloseReason::Idle => 5,
    }
}

/// The reason of a number.
pub open spec fn reason_of(v: u8) -> Result<CloseReason, Fault> {
    match v {
        0 => Ok(CloseReason::Normal),
        1 => Ok(CloseReason::GuestReset),
        2 => Ok(CloseReason::RemoteReset),
        3 => Ok(CloseReason::Refused),
        4 => Ok(CloseReason::Timeout),
        5 => Ok(CloseReason::Idle),
        _ => Err(Fault::Reason(v)),
    }
}

pub open spec fn opt_reason_code(c: Option<CloseReason>) -> Option<u8> {
    match c {
        Some(r) => Some(reason_code(r)),
        None => None,
    }
}

pub open spec fn opt_reason_of(v: Option<u8>) -> Result<Option<CloseReason>, Fault> {
    match v {
        Some(n) => match reason_of(n) {
            Ok(r) => Ok(Some(r)),
            Err(e) => Err(e),
        },
        None => Ok(None),
    }
}

pub fn code_of_reason(c: CloseReason) -> (r: u8)
    ensures
        r == reason_code(c),
{
    match c {
        CloseReason::Normal => 0,
        CloseReason::GuestReset => 1,
        CloseReason::RemoteReset => 2,
        CloseReason::Refused => 3,
        CloseReason::Timeout => 4,
        CloseReason::Idle => 5,
    }
}

pub fn reason_from(v: u8) -> (r: Result<CloseReason, Fault>)
    ensures
        r == reason_of(v),
{
    match v {
        0 => Ok(CloseReason::Normal),
        1 => Ok(CloseReason::GuestReset),
        2 => Ok(CloseReason::RemoteReset),
        3 => Ok(CloseReason::Refused),
        4 => Ok(CloseReason::Timeout),
        5 => Ok(CloseReason::Idle),
        _ => Err(Fault::Reason(v)),
    }
}

pub fn code_of_opt_reason(c: Option<CloseReason>) -> (r: Option<u8>)
    ensures
        r == opt_reason_code(c),
{
    match c {
        Some(x) => Some(code_of_reason(x)),
        None => None,
    }
}

pub fn opt_reason_from(v: Option<u8>) -> (r: Result<Option<CloseReason>, Fault>)
    ensures
        r == opt_reason_of(v),
{
    match v {
        Some(n) => match reason_from(n) {
            Ok(x) => Ok(Some(x)),
            Err(e) => Err(e),
        },
        None => Ok(None),
    }
}

pub open spec fn sample_pair(s: Option<RttSample>) -> Option<(u32, u64)> {
    match s {
        Some(x) => Some((x.seq, x.at.0)),
        None => None,
    }
}

pub open spec fn sample_of(p: Option<(u32, u64)>) -> Option<RttSample> {
    match p {
        Some(x) => Some(RttSample { seq: x.0, at: VirtualTime(x.1) }),
        None => None,
    }
}

fn pair_of_sample(s: Option<RttSample>) -> (r: Option<(u32, u64)>)
    ensures
        r == sample_pair(s),
{
    match s {
        Some(x) => Some((x.seq, x.at.0)),
        None => None,
    }
}

fn sample_from(p: Option<(u32, u64)>) -> (r: Option<RttSample>)
    ensures
        r == sample_of(p),
{
    match p {
        Some(x) => Some(RttSample { seq: x.0, at: VirtualTime(x.1) }),
        None => None,
    }
}

pub open spec fn time_number(t: Option<VirtualTime>) -> Option<u64> {
    match t {
        Some(x) => Some(x.0),
        None => None,
    }
}

pub open spec fn time_of(n: Option<u64>) -> Option<VirtualTime> {
    match n {
        Some(x) => Some(VirtualTime(x)),
        None => None,
    }
}

pub fn number_of_time(t: Option<VirtualTime>) -> (r: Option<u64>)
    ensures
        r == time_number(t),
{
    match t {
        Some(x) => Some(x.0),
        None => None,
    }
}

pub fn time_from(n: Option<u64>) -> (r: Option<VirtualTime>)
    ensures
        r == time_of(n),
{
    match n {
        Some(x) => Some(VirtualTime(x)),
        None => None,
    }
}

/// The head fields of a connection.
pub open spec fn head_tokens(c: Conn) -> Seq<Token> {
    seq![
        Token::U64(c.t.id),
        Token::Ip(c.t.flow.guest.ip),
        Token::U16(c.t.flow.guest.port),
        Token::Ip(c.t.flow.remote.ip),
        Token::U16(c.t.flow.remote.port),
        Token::U8(state_code(c.t.state)),
        Token::U16(c.t.local_mss),
    ]
}

pub open spec fn head_kinds() -> Seq<Kind> {
    seq![
        Kind::U64,
        Kind::Ip,
        Kind::U16,
        Kind::Ip,
        Kind::U16,
        Kind::U8,
        Kind::U16,
    ]
}

/// The sender fields of a connection.
pub open spec fn sender_tokens(c: Conn) -> Seq<Token> {
    seq![
        Token::U32(c.t.mss),
        Token::U32(c.t.iss),
        Token::U32(c.t.snd_una),
        Token::U32(c.t.snd_nxt),
        Token::U32(c.t.snd_max),
        Token::U32(c.t.snd_wnd),
        Token::U32(c.t.snd_wl1),
        Token::U32(c.t.snd_wl2),
        Token::U32(c.t.cwnd),
        Token::U32(c.t.ssthresh),
    ]
}

pub open spec fn sender_kinds() -> Seq<Kind> {
    seq![
        Kind::U32,
        Kind::U32,
        Kind::U32,
        Kind::U32,
        Kind::U32,
        Kind::U32,
        Kind::U32,
        Kind::U32,
        Kind::U32,
        Kind::U32,
    ]
}

/// The buffers fields of a connection.
pub open spec fn buffers_tokens(c: Conn) -> Seq<Token> {
    seq![
        Token::Octets(c.tx),
        Token::Bool(c.t.tx_eof),
        Token::OptU32(c.t.fin_seq),
        Token::U32(c.t.irs),
        Token::U32(c.t.rcv_nxt),
        Token::Octets(c.rx),
        Token::Bool(c.t.rx_fin),
        Token::Bool(c.t.shutdown_done),
        Token::U32(c.t.adv_edge),
        Token::Bool(c.t.ack_pending),
    ]
}

pub open spec fn buffers_kinds() -> Seq<Kind> {
    seq![
        Kind::Octets,
        Kind::Bool,
        Kind::OptU32,
        Kind::U32,
        Kind::U32,
        Kind::Octets,
        Kind::Bool,
        Kind::Bool,
        Kind::U32,
        Kind::Bool,
    ]
}

/// The timers fields of a connection.
pub open spec fn timers_tokens(c: Conn) -> Seq<Token> {
    seq![
        Token::U64(c.t.rto),
        Token::U64(c.t.rto_base),
        Token::OptU64(c.t.srtt),
        Token::U64(c.t.rttvar),
        Token::OptSample(sample_pair(c.t.rtt_sample)),
        Token::OptTime(time_number(c.t.rtx_deadline)),
        Token::U32(c.t.retries),
    ]
}

pub open spec fn timers_kinds() -> Seq<Kind> {
    seq![
        Kind::U64,
        Kind::U64,
        Kind::OptU64,
        Kind::U64,
        Kind::OptSample,
        Kind::OptTime,
        Kind::U32,
    ]
}

/// The ending fields of a connection.
pub open spec fn ending_tokens(c: Conn) -> Seq<Token> {
    seq![
        Token::U32(c.t.dup_acks),
        Token::U64(c.t.connect_deadline.0),
        Token::U64(c.t.time_wait_deadline.0),
        Token::U64(c.t.bytes_to_remote),
        Token::U64(c.t.bytes_to_guest),
        Token::OptU8(opt_reason_code(c.t.close_reason)),
    ]
}

pub open spec fn ending_kinds() -> Seq<Kind> {
    seq![
        Kind::U32,
        Kind::U64,
        Kind::U64,
        Kind::U64,
        Kind::U64,
        Kind::OptU8,
    ]
}

/// A saved connection.
pub open spec fn conn_tokens(c: Conn) -> Seq<Token> {
    head_tokens(c) + sender_tokens(c) + buffers_tokens(c) + timers_tokens(c) + ending_tokens(c)
}

/// The kinds of its fields.
pub open spec fn conn_kinds() -> Seq<Kind> {
    head_kinds() + sender_kinds() + buffers_kinds() + timers_kinds() + ending_kinds()
}

pub proof fn lemma_conn_kinds()
    ensures
        conn_kinds().len() == 40,
        conn_kinds()[0] == Kind::U64,
        conn_kinds()[1] == Kind::Ip,
        conn_kinds()[2] == Kind::U16,
        conn_kinds()[3] == Kind::Ip,
        conn_kinds()[4] == Kind::U16,
        conn_kinds()[5] == Kind::U8,
        conn_kinds()[6] == Kind::U16,
        conn_kinds()[7] == Kind::U32,
        conn_kinds()[8] == Kind::U32,
        conn_kinds()[9] == Kind::U32,
        conn_kinds()[10] == Kind::U32,
        conn_kinds()[11] == Kind::U32,
        conn_kinds()[12] == Kind::U32,
        conn_kinds()[13] == Kind::U32,
        conn_kinds()[14] == Kind::U32,
        conn_kinds()[15] == Kind::U32,
        conn_kinds()[16] == Kind::U32,
        conn_kinds()[17] == Kind::Octets,
        conn_kinds()[18] == Kind::Bool,
        conn_kinds()[19] == Kind::OptU32,
        conn_kinds()[20] == Kind::U32,
        conn_kinds()[21] == Kind::U32,
        conn_kinds()[22] == Kind::Octets,
        conn_kinds()[23] == Kind::Bool,
        conn_kinds()[24] == Kind::Bool,
        conn_kinds()[25] == Kind::U32,
        conn_kinds()[26] == Kind::Bool,
        conn_kinds()[27] == Kind::U64,
        conn_kinds()[28] == Kind::U64,
        conn_kinds()[29] == Kind::OptU64,
        conn_kinds()[30] == Kind::U64,
        conn_kinds()[31] == Kind::OptSample,
        conn_kinds()[32] == Kind::OptTime,
        conn_kinds()[33] == Kind::U32,
        conn_kinds()[34] == Kind::U32,
        conn_kinds()[35] == Kind::U64,
        conn_kinds()[36] == Kind::U64,
        conn_kinds()[37] == Kind::U64,
        conn_kinds()[38] == Kind::U64,
        conn_kinds()[39] == Kind::OptU8,
{
}

impl TcpConn {
    fn head_fields(&self) -> (r: Vec<Field>)
        ensures
            tokens(r@) == head_tokens(self@),
    {
        let mut r: Vec<Field> = Vec::new();
        r.push(Field::U64(self.t.id));
        r.push(Field::Ip(self.t.flow.guest.ip));
        r.push(Field::U16(self.t.flow.guest.port));
        r.push(Field::Ip(self.t.flow.remote.ip));
        r.push(Field::U16(self.t.flow.remote.port));
        r.push(Field::U8(code_of_state(self.t.state)));
        r.push(Field::U16(self.t.local_mss));
        assert(tokens(r@) =~= head_tokens(self@));
        r
    }

    fn sender_fields(&self) -> (r: Vec<Field>)
        ensures
            tokens(r@) == sender_tokens(self@),
    {
        let mut r: Vec<Field> = Vec::new();
        r.push(Field::U32(self.t.mss));
        r.push(Field::U32(self.t.iss));
        r.push(Field::U32(self.t.snd_una));
        r.push(Field::U32(self.t.snd_nxt));
        r.push(Field::U32(self.t.snd_max));
        r.push(Field::U32(self.t.snd_wnd));
        r.push(Field::U32(self.t.snd_wl1));
        r.push(Field::U32(self.t.snd_wl2));
        r.push(Field::U32(self.t.cwnd));
        r.push(Field::U32(self.t.ssthresh));
        assert(tokens(r@) =~= sender_tokens(self@));
        r
    }

    fn buffers_fields(&self) -> (r: Vec<Field>)
        ensures
            tokens(r@) == buffers_tokens(self@),
    {
        let tx: Vec<u8> = copy_range(&self.tx, 0, self.tx.len());
        let rx: Vec<u8> = copy_range(&self.rx, 0, self.rx.len());
        assert(tx@ =~= self@.tx);
        assert(rx@ =~= self@.rx);
        let mut r: Vec<Field> = Vec::new();
        r.push(Field::Octets(tx));
        r.push(Field::Bool(self.t.tx_eof));
        r.push(Field::OptU32(self.t.fin_seq));
        r.push(Field::U32(self.t.irs));
        r.push(Field::U32(self.t.rcv_nxt));
        r.push(Field::Octets(rx));
        r.push(Field::Bool(self.t.rx_fin));
        r.push(Field::Bool(self.t.shutdown_done));
        r.push(Field::U32(self.t.adv_edge));
        r.push(Field::Bool(self.t.ack_pending));
        assert(tokens(r@) =~= buffers_tokens(self@));
        r
    }

    fn timers_fields(&self) -> (r: Vec<Field>)
        ensures
            tokens(r@) == timers_tokens(self@),
    {
        let mut r: Vec<Field> = Vec::new();
        r.push(Field::U64(self.t.rto));
        r.push(Field::U64(self.t.rto_base));
        r.push(Field::OptU64(self.t.srtt));
        r.push(Field::U64(self.t.rttvar));
        r.push(Field::OptSample(pair_of_sample(self.t.rtt_sample)));
        r.push(Field::OptTime(number_of_time(self.t.rtx_deadline)));
        r.push(Field::U32(self.t.retries));
        assert(tokens(r@) =~= timers_tokens(self@));
        r
    }

    fn ending_fields(&self) -> (r: Vec<Field>)
        ensures
            tokens(r@) == ending_tokens(self@),
    {
        let mut r: Vec<Field> = Vec::new();
        r.push(Field::U32(self.t.dup_acks));
        r.push(Field::U64(self.t.connect_deadline.0));
        r.push(Field::U64(self.t.time_wait_deadline.0));
        r.push(Field::U64(self.t.bytes_to_remote));
        r.push(Field::U64(self.t.bytes_to_guest));
        r.push(Field::OptU8(code_of_opt_reason(self.t.close_reason)));
        assert(tokens(r@) =~= ending_tokens(self@));
        r
    }

    /// The fields of the connection, in order.
    pub fn save(&self) -> (r: Vec<Field>)
        ensures
            tokens(r@) == conn_tokens(self@),
    {
        let mut r: Vec<Field> = self.head_fields();
        append(&mut r, self.sender_fields());
        append(&mut r, self.buffers_fields());
        append(&mut r, self.timers_fields());
        append(&mut r, self.ending_fields());
        r
    }
}

/// Appends the kinds of the fields of a connection.
pub fn push_conn_kinds(v: &mut Vec<Kind>)
    ensures
        final(v)@ == old(v)@ + conn_kinds(),
{
    let ghost vhead = v@;
    v.push(Kind::U64);
    v.push(Kind::Ip);
    v.push(Kind::U16);
    v.push(Kind::Ip);
    v.push(Kind::U16);
    v.push(Kind::U8);
    v.push(Kind::U16);
    assert(v@ =~= vhead + head_kinds());
    let ghost vsender = v@;
    v.push(Kind::U32);
    v.push(Kind::U32);
    v.push(Kind::U32);
    v.push(Kind::U32);
    v.push(Kind::U32);
    v.push(Kind::U32);
    v.push(Kind::U32);
    v.push(Kind::U32);
    v.push(Kind::U32);
    v.push(Kind::U32);
    assert(v@ =~= vsender + sender_kinds());
    let ghost vbuffers = v@;
    v.push(Kind::Octets);
    v.push(Kind::Bool);
    v.push(Kind::OptU32);
    v.push(Kind::U32);
    v.push(Kind::U32);
    v.push(Kind::Octets);
    v.push(Kind::Bool);
    v.push(Kind::Bool);
    v.push(Kind::U32);
    v.push(Kind::Bool);
    assert(v@ =~= vbuffers + buffers_kinds());
    let ghost vtimers = v@;
    v.push(Kind::U64);
    v.push(Kind::U64);
    v.push(Kind::OptU64);
    v.push(Kind::U64);
    v.push(Kind::OptSample);
    v.push(Kind::OptTime);
    v.push(Kind::U32);
    assert(v@ =~= vtimers + timers_kinds());
    let ghost vending = v@;
    v.push(Kind::U32);
    v.push(Kind::U64);
    v.push(Kind::U64);
    v.push(Kind::U64);
    v.push(Kind::U64);
    v.push(Kind::OptU8);
    assert(v@ =~= vending + ending_kinds());
    assert(v@ =~= old(v)@ + conn_kinds());
}

/// The control block in a row, from `at` on.
pub open spec fn tcb_of(row: Seq<Token>, at: int, state: State, close_reason: Option<CloseReason>) -> Tcb {
    Tcb {
        id: row[at + 0]->U64_0,
        flow: Flow { guest: SocketAddrV4 { ip: row[at + 1]->Ip_0, port: row[at + 2]->U16_0 }, remote: SocketAddrV4 { ip: row[at + 3]->Ip_0, port: row[at + 4]->U16_0 } },
        state: state,
        local_mss: row[at + 6]->U16_0,
        mss: row[at + 7]->U32_0,
        iss: row[at + 8]->U32_0,
        snd_una: row[at + 9]->U32_0,
        snd_nxt: row[at + 10]->U32_0,
        snd_max: row[at + 11]->U32_0,
        snd_wnd: row[at + 12]->U32_0,
        snd_wl1: row[at + 13]->U32_0,
        snd_wl2: row[at + 14]->U32_0,
        cwnd: row[at + 15]->U32_0,
        ssthresh: row[at + 16]->U32_0,
        tx_eof: row[at + 18]->Bool_0,
        fin_seq: row[at + 19]->OptU32_0,
        irs: row[at + 20]->U32_0,
        rcv_nxt: row[at + 21]->U32_0,
        rx_fin: row[at + 23]->Bool_0,
        shutdown_done: row[at + 24]->Bool_0,
        adv_edge: row[at + 25]->U32_0,
        ack_pending: row[at + 26]->Bool_0,
        rto: row[at + 27]->U64_0,
        rto_base: row[at + 28]->U64_0,
        srtt: row[at + 29]->OptU64_0,
        rttvar: row[at + 30]->U64_0,
        rtt_sample: sample_of(row[at + 31]->OptSample_0),
        rtx_deadline: time_of(row[at + 32]->OptTime_0),
        retries: row[at + 33]->U32_0,
        dup_acks: row[at + 34]->U32_0,
        connect_deadline: VirtualTime(row[at + 35]->U64_0),
        time_wait_deadline: VirtualTime(row[at + 36]->U64_0),
        bytes_to_remote: row[at + 37]->U64_0,
        bytes_to_guest: row[at + 38]->U64_0,
        close_reason: close_reason,
    }
}

/// The connection in a row, from `at` on.
pub open spec fn conn_of(row: Seq<Token>, at: int) -> Result<Conn, Fault> {
    match state_of(row[at + 5]->U8_0) {
        None => Err(Fault::TcpState(row[at + 5]->U8_0)),
        Some(state) => match opt_reason_of(row[at + 39]->OptU8_0) {
            Err(e) => Err(e),
            Ok(reason) => Ok(
                Conn {
                    t: tcb_of(row, at, state, reason),
                    tx: row[at + 17]->Octets_0,
                    rx: row[at + 22]->Octets_0,
                },
            ),
        },
    }
}

/// The row has a connection from `at` on.
pub open spec fn conn_at(row: Seq<Token>, at: int) -> bool {
    0 <= at && fits(row.skip(at), conn_kinds()) && at + conn_kinds().len() <= row.len()
}

fn tcb_from(row: &Vec<Field>, at: usize, state: State, close_reason: Option<CloseReason>) -> (r: Tcb)
    requires
        conn_at(tokens(row@), at as int),
    ensures
        r == tcb_of(tokens(row@), at as int, state, close_reason),
{
    proof {
        lemma_conn_kinds();
        lemma_row_at(row@, at as int);
    }
    let len: usize = row.len();
    assert(at + 40 <= len);
    Tcb {
        id: row[at + 0].u64(),
        flow: Flow { guest: SocketAddrV4 { ip: row[at + 1].ip(), port: row[at + 2].u16() }, remote: SocketAddrV4 { ip: row[at + 3].ip(), port: row[at + 4].u16() } },
        state: state,
        local_mss: row[at + 6].u16(),
        mss: row[at + 7].u32(),
        iss: row[at + 8].u32(),
        snd_una: row[at + 9].u32(),
        snd_nxt: row[at + 10].u32(),
        snd_max: row[at + 11].u32(),
        snd_wnd: row[at + 12].u32(),
        snd_wl1: row[at + 13].u32(),
        snd_wl2: row[at + 14].u32(),
        cwnd: row[at + 15].u32(),
        ssthresh: row[at + 16].u32(),
        tx_eof: row[at + 18].bool(),
        fin_seq: row[at + 19].opt_u32(),
        irs: row[at + 20].u32(),
        rcv_nxt: row[at + 21].u32(),
        rx_fin: row[at + 23].bool(),
        shutdown_done: row[at + 24].bool(),
        adv_edge: row[at + 25].u32(),
        ack_pending: row[at + 26].bool(),
        rto: row[at + 27].u64(),
        rto_base: row[at + 28].u64(),
        srtt: row[at + 29].opt_u64(),
        rttvar: row[at + 30].u64(),
        rtt_sample: sample_from(row[at + 31].opt_sample()),
        rtx_deadline: time_from(row[at + 32].opt_time()),
        retries: row[at + 33].u32(),
        dup_acks: row[at + 34].u32(),
        connect_deadline: VirtualTime(row[at + 35].u64()),
        time_wait_deadline: VirtualTime(row[at + 36].u64()),
        bytes_to_remote: row[at + 37].u64(),
        bytes_to_guest: row[at + 38].u64(),
        close_reason: close_reason,
    }
}

/// The fields of a row, each of its kind.
proof fn lemma_row_at(row: Seq<Field>, at: int)
    requires
        conn_at(tokens(row), at),
    ensures
        row.len() == tokens(row).len(),
        at + conn_kinds().len() <= row.len(),
        forall|i: int| 0 <= i < row.len() ==> (#[trigger] row[i])@ == tokens(row)[i],
        forall|i: int|
            at <= i < at + conn_kinds().len() ==> (#[trigger] row[i])@.is_kind(conn_kinds()[i - at]),
{
    let t = tokens(row).skip(at);
    assert forall|i: int| at <= i < at + conn_kinds().len() implies (#[trigger] row[i])@.is_kind(
        conn_kinds()[i - at],
    ) by {
        assert(t[i - at] == row[i]@);
        assert(t[i - at].is_kind(conn_kinds()[i - at]));
    }
}

impl TcpConn {
    /// The connection in a row, from `at` on.
    pub fn restore(row: &Vec<Field>, at: usize) -> (r: Result<TcpConn, Fault>)
        requires
            conn_at(tokens(row@), at as int),
        ensures
            match r {
                Ok(c) => conn_of(tokens(row@), at as int) == Ok::<Conn, Fault>(c@),
                Err(e) => conn_of(tokens(row@), at as int) == Err::<Conn, Fault>(e),
            },
    {
        proof {
            lemma_conn_kinds();
            lemma_row_at(row@, at as int);
        }
        let len: usize = row.len();
        assert(at + 40 <= len);
        let code: u8 = row[at + 5].u8();
        let state: State = match state_from(code) {
            Some(s) => s,
            None => {
                return Err(Fault::TcpState(code));
            },
        };
        let reason: Option<CloseReason> = match opt_reason_from(row[at + 39].opt_u8()) {
            Ok(x) => x,
            Err(e) => {
                return Err(e);
            },
        };
        let t: Tcb = tcb_from(row, at, state, reason);
        let tx: Vec<u8> = row[at + 17].octets();
        let rx: Vec<u8> = row[at + 22].octets();
        let c = TcpConn { t, tx: queue_of(tx.as_slice()), rx: queue_of(rx.as_slice()) };
        Ok(c)
    }

    /// Whether the numbers are ones that a connection can have.
    pub fn is_sound(&self) -> (r: bool)
        ensures
            r == self@.wf(),
    {
        self.rx.len() <= RX_CAPACITY as usize && 1 <= self.t.mss && self.t.mss <= 65_535 && (self.t.cwnd
            > 0 || self.t.ssthresh > 0) && self.t.rto <= 0x7FFF_FFFF_FFFF_FFFF && self.t.rto_base
            <= 0x7FFF_FFFF_FFFF_FFFF && (self.t.retries < 0xFFFF_FFFF || self.t.state
            == State::Closed)
    }
}

/// A connection that was saved is restored as it was.
pub proof fn law_connection_comes_back(c: Conn, before: Seq<Token>, after: Seq<Token>)
    ensures
        conn_at(before + conn_tokens(c) + after, before.len() as int),
        conn_of(before + conn_tokens(c) + after, before.len() as int) == Ok::<Conn, Fault>(c),
{
    let row = before + conn_tokens(c) + after;
    let at = before.len() as int;
    lemma_conn_kinds();
    lemma_conn_tokens(c);
    assert forall|i: int| 0 <= i < conn_kinds().len() implies #[trigger] row.skip(at)[i]
        == conn_tokens(c)[i] by {
    }
    assert forall|i: int| 0 <= i < conn_kinds().len() implies #[trigger] row[at + i]
        == conn_tokens(c)[i] by {
    }
    assert(row[at + 0] == conn_tokens(c)[0]);
    assert(row[at + 1] == conn_tokens(c)[1]);
    assert(row[at + 2] == conn_tokens(c)[2]);
    assert(row[at + 3] == conn_tokens(c)[3]);
    assert(row[at + 4] == conn_tokens(c)[4]);
    assert(row[at + 5] == conn_tokens(c)[5]);
    assert(row[at + 6] == conn_tokens(c)[6]);
    assert(row[at + 7] == conn_tokens(c)[7]);
    assert(row[at + 8] == conn_tokens(c)[8]);
    assert(row[at + 9] == conn_tokens(c)[9]);
    assert(row[at + 10] == conn_tokens(c)[10]);
    assert(row[at + 11] == conn_tokens(c)[11]);
    assert(row[at + 12] == conn_tokens(c)[12]);
    assert(row[at + 13] == conn_tokens(c)[13]);
    assert(row[at + 14] == conn_tokens(c)[14]);
    assert(row[at + 15] == conn_tokens(c)[15]);
    assert(row[at + 16] == conn_tokens(c)[16]);
    assert(row[at + 17] == conn_tokens(c)[17]);
    assert(row[at + 18] == conn_tokens(c)[18]);
    assert(row[at + 19] == conn_tokens(c)[19]);
    assert(row[at + 20] == conn_tokens(c)[20]);
    assert(row[at + 21] == conn_tokens(c)[21]);
    assert(row[at + 22] == conn_tokens(c)[22]);
    assert(row[at + 23] == conn_tokens(c)[23]);
    assert(row[at + 24] == conn_tokens(c)[24]);
    assert(row[at + 25] == conn_tokens(c)[25]);
    assert(row[at + 26] == conn_tokens(c)[26]);
    assert(row[at + 27] == conn_tokens(c)[27]);
    assert(row[at + 28] == conn_tokens(c)[28]);
    assert(row[at + 29] == conn_tokens(c)[29]);
    assert(row[at + 30] == conn_tokens(c)[30]);
    assert(row[at + 31] == conn_tokens(c)[31]);
    assert(row[at + 32] == conn_tokens(c)[32]);
    assert(row[at + 33] == conn_tokens(c)[33]);
    assert(row[at + 34] == conn_tokens(c)[34]);
    assert(row[at + 35] == conn_tokens(c)[35]);
    assert(row[at + 36] == conn_tokens(c)[36]);
    assert(row[at + 37] == conn_tokens(c)[37]);
    assert(row[at + 38] == conn_tokens(c)[38]);
    assert(row[at + 39] == conn_tokens(c)[39]);
    assert(conn_of(row, at)->Ok_0 =~= c);
}

proof fn lemma_conn_tokens(c: Conn)
    ensures
        conn_tokens(c).len() == 40,
        conn_tokens(c)[0] == Token::U64(c.t.id),
        conn_tokens(c)[1] == Token::Ip(c.t.flow.guest.ip),
        conn_tokens(c)[2] == Token::U16(c.t.flow.guest.port),
        conn_tokens(c)[3] == Token::Ip(c.t.flow.remote.ip),
        conn_tokens(c)[4] == Token::U16(c.t.flow.remote.port),
        conn_tokens(c)[5] == Token::U8(state_code(c.t.state)),
        conn_tokens(c)[6] == Token::U16(c.t.local_mss),
        conn_tokens(c)[7] == Token::U32(c.t.mss),
        conn_tokens(c)[8] == Token::U32(c.t.iss),
        conn_tokens(c)[9] == Token::U32(c.t.snd_una),
        conn_tokens(c)[10] == Token::U32(c.t.snd_nxt),
        conn_tokens(c)[11] == Token::U32(c.t.snd_max),
        conn_tokens(c)[12] == Token::U32(c.t.snd_wnd),
        conn_tokens(c)[13] == Token::U32(c.t.snd_wl1),
        conn_tokens(c)[14] == Token::U32(c.t.snd_wl2),
        conn_tokens(c)[15] == Token::U32(c.t.cwnd),
        conn_tokens(c)[16] == Token::U32(c.t.ssthresh),
        conn_tokens(c)[17] == Token::Octets(c.tx),
        conn_tokens(c)[18] == Token::Bool(c.t.tx_eof),
        conn_tokens(c)[19] == Token::OptU32(c.t.fin_seq),
        conn_tokens(c)[20] == Token::U32(c.t.irs),
        conn_tokens(c)[21] == Token::U32(c.t.rcv_nxt),
        conn_tokens(c)[22] == Token::Octets(c.rx),
        conn_tokens(c)[23] == Token::Bool(c.t.rx_fin),
        conn_tokens(c)[24] == Token::Bool(c.t.shutdown_done),
        conn_tokens(c)[25] == Token::U32(c.t.adv_edge),
        conn_tokens(c)[26] == Token::Bool(c.t.ack_pending),
        conn_tokens(c)[27] == Token::U64(c.t.rto),
        conn_tokens(c)[28] == Token::U64(c.t.rto_base),
        conn_tokens(c)[29] == Token::OptU64(c.t.srtt),
        conn_tokens(c)[30] == Token::U64(c.t.rttvar),
        conn_tokens(c)[31] == Token::OptSample(sample_pair(c.t.rtt_sample)),
        conn_tokens(c)[32] == Token::OptTime(time_number(c.t.rtx_deadline)),
        conn_tokens(c)[33] == Token::U32(c.t.retries),
        conn_tokens(c)[34] == Token::U32(c.t.dup_acks),
        conn_tokens(c)[35] == Token::U64(c.t.connect_deadline.0),
        conn_tokens(c)[36] == Token::U64(c.t.time_wait_deadline.0),
        conn_tokens(c)[37] == Token::U64(c.t.bytes_to_remote),
        conn_tokens(c)[38] == Token::U64(c.t.bytes_to_guest),
        conn_tokens(c)[39] == Token::OptU8(opt_reason_code(c.t.close_reason)),
        fits(conn_tokens(c), conn_kinds()),
{
    lemma_conn_kinds();
}

} // verus!
