//! The vsock device in the saved state of the machine.
use std::collections::VecDeque;
use vstd::prelude::*;
use crate::bytes::queue_of;
use crate::platform::virtio::vsock::{law_header_round_trip, Hdr, Link, VirtioVsock, Vsock, VsockConn, VsockLink, VsockState};
use crate::platform::virtio::vsock_laws::tables_in_order;
use crate::rows::{items, law_saved_list_comes_back, law_saved_table_comes_back, lines_of, list_from, restore_list, restore_table, rows_of, save_list, save_table, table_from, Item, Row};
use crate::snapshot::{append, fits, law_row_comes_back, lemma_join, read_row, table_tokens, tokens, Fault, Field, Kind, Source, Subject, Token};
use crate::table::Table;

verus! {

/// The number of a state.
pub open spec fn state_code(s: VsockState) -> u8 {
    match s {
        VsockState::Connecting => 0,
        VsockState::Connected => 1,
        VsockState::Closing => 2,
        VsockState::Closed => 3,
    }
}

pub open spec fn state_of(v: u8) -> Option<VsockState> {
    if v == 0 {
        Some(VsockState::Connecting)
    } else if v == 1 {
        Some(VsockState::Connected)
    } else if v == 2 {
        Some(VsockState::Closing)
    } else if v == 3 {
        Some(VsockState::Closed)
    } else {
        None
    }
}

fn code_of(s: VsockState) -> (r: u8)
    ensures
        r == state_code(s),
{
    match s {
        VsockState::Connecting => 0,
        VsockState::Connected => 1,
        VsockState::Closing => 2,
        VsockState::Closed => 3,
    }
}

fn state_from(v: u8) -> (r: Option<VsockState>)
    ensures
        r == state_of(v),
{
    match v {
        0 => Some(VsockState::Connecting),
        1 => Some(VsockState::Connected),
        2 => Some(VsockState::Closing),
        3 => Some(VsockState::Closed),
        _ => None,
    }
}

fn list_octets(q: &VecDeque<u8>) -> (r: Vec<u8>)
    ensures
        r@ == q@,
{
    let mut r: Vec<u8> = Vec::new();
    let mut i: usize = 0;
    while i < q.len()
        invariant
            i <= q@.len(),
            r@ == q@.take(i as int),
        decreases q@.len() - i,
    {
        r.push(q[i]);
        i += 1;
        assert(r@ =~= q@.take(i as int));
    }
    assert(r@ =~= q@);
    r
}

fn list_headers(q: &VecDeque<Hdr>) -> (r: Vec<Hdr>)
    ensures
        r@ == q@,
{
    let mut r: Vec<Hdr> = Vec::new();
    let mut i: usize = 0;
    while i < q.len()
        invariant
            i <= q@.len(),
            r@ == q@.take(i as int),
        decreases q@.len() - i,
    {
        r.push(q[i]);
        i += 1;
        assert(r@ =~= q@.take(i as int));
    }
    assert(r@ =~= q@);
    r
}

fn queue_headers(v: &Vec<Hdr>) -> (r: VecDeque<Hdr>)
    ensures
        r@ == v@,
{
    let mut r: VecDeque<Hdr> = VecDeque::new();
    let mut i: usize = 0;
    while i < v.len()
        invariant
            i <= v@.len(),
            r@ == v@.take(i as int),
        decreases v@.len() - i,
    {
        r.push_back(v[i]);
        i += 1;
        assert(r@ =~= v@.take(i as int));
    }
    assert(r@ =~= v@);
    r
}

/// Connections as pairs of ports.
pub open spec fn port_pairs(s: Seq<VsockConn>) -> Seq<(u32, u32)> {
    s.map_values(|c: VsockConn| (c.host_port, c.guest_port))
}

pub open spec fn conns_of(s: Seq<(u32, u32)>) -> Seq<VsockConn> {
    s.map_values(|p: (u32, u32)| VsockConn { host_port: p.0, guest_port: p.1 })
}

fn list_pairs(q: &VecDeque<VsockConn>) -> (r: Vec<(u32, u32)>)
    ensures
        r@ == port_pairs(q@),
{
    let mut r: Vec<(u32, u32)> = Vec::new();
    let mut i: usize = 0;
    while i < q.len()
        invariant
            i <= q@.len(),
            r@ == port_pairs(q@).take(i as int),
        decreases q@.len() - i,
    {
        r.push((q[i].host_port, q[i].guest_port));
        i += 1;
        assert(r@ =~= port_pairs(q@).take(i as int));
    }
    assert(r@ =~= port_pairs(q@));
    r
}

fn queue_conns(v: &Vec<(u32, u32)>) -> (r: VecDeque<VsockConn>)
    ensures
        r@ == conns_of(v@),
{
    let mut r: VecDeque<VsockConn> = VecDeque::new();
    let mut i: usize = 0;
    while i < v.len()
        invariant
            i <= v@.len(),
            r@ == conns_of(v@).take(i as int),
        decreases v@.len() - i,
    {
        r.push_back(VsockConn { host_port: v[i].0, guest_port: v[i].1 });
        i += 1;
        assert(r@ =~= conns_of(v@).take(i as int));
    }
    assert(r@ =~= conns_of(v@));
    r
}

/// A listening port: its entry in the table is `true`.
impl Row for bool {
    open spec fn row(k: u64, m: bool) -> Seq<Token> {
        seq![
            Token::U32(k as u32),
        ]
    }

    open spec fn kinds() -> Seq<Kind> {
        seq![
            Kind::U32,
        ]
    }

    open spec fn of(row: Seq<Token>) -> Result<(u64, bool), Fault> {
        Ok((row[0]->U32_0 as u64, true))
    }

    open spec fn good(k: u64, m: bool) -> bool {
        k <= u32::MAX && m
    }

    proof fn comes_back(k: u64, m: bool) {
        let row = Self::row(k, m);
        assert(row[0] == Token::U32(k as u32));
        assert((Self::of(row)->Ok_0).1 =~= m);
    }

    fn fields(&self, k: u64) -> (r: Vec<Field>) {
        let mut r: Vec<Field> = Vec::new();
        r.push(Field::U32(k as u32));
        assert(tokens(r@) =~= Self::row(k, self@));
        r
    }

    fn kind_list() -> (r: Vec<Kind>) {
        let mut r: Vec<Kind> = Vec::new();
        r.push(Kind::U32);
        assert(r@ =~= Self::kinds());
        r
    }

    open spec fn row_bytes() -> u64 {
        4
    }

    fn least() -> (r: u64) {
        4
    }

    fn from_row(row: &Vec<Field>) -> (r: Result<(u64, Self), Fault>) {
        let ghost t = tokens(row@);
        assert(forall|i: int| 0 <= i < row@.len() ==> (#[trigger] row@[i])@ == t[i]);
        assert(t[0].is_kind(Self::kinds()[0]));
        Ok((row[0].u32() as u64, true))
    }
}

impl Row for VsockLink {
    open spec fn row(k: u64, m: Link) -> Seq<Token> {
        seq![
            Token::U32(VsockConn::of(k).host_port),
            Token::U32(VsockConn::of(k).guest_port),
            Token::U8(state_code(m.state)),
            Token::U32(m.peer_buf_alloc),
            Token::U32(m.peer_fwd_cnt),
            Token::U32(m.tx_cnt),
            Token::U32(m.fwd_cnt),
            Token::U32(m.last_fwd_sent),
            Token::U32(m.rx_cnt),
            Token::Octets(m.tx_buf),
            Token::Octets(m.rx_buf),
            Token::Bool(m.peer_eof),
            Token::U32(m.shutdown_pending),
            Token::Bool(m.send_closed),
            Token::Bool(m.credit_update),
        ]
    }

    open spec fn kinds() -> Seq<Kind> {
        seq![
            Kind::U32,
            Kind::U32,
            Kind::U8,
            Kind::U32,
            Kind::U32,
            Kind::U32,
            Kind::U32,
            Kind::U32,
            Kind::U32,
            Kind::Octets,
            Kind::Octets,
            Kind::Bool,
            Kind::U32,
            Kind::Bool,
            Kind::Bool,
        ]
    }

    open spec fn of(row: Seq<Token>) -> Result<(u64, Link), Fault> {
        match state_of(row[2]->U8_0) {
            None => Err(Fault::VsockState(row[2]->U8_0)),
            Some(state) => Ok(
                (
                    VsockConn { host_port: row[0]->U32_0, guest_port: row[1]->U32_0 }.key(),
                    Link {
                        state,
                        peer_buf_alloc: row[3]->U32_0,
                        peer_fwd_cnt: row[4]->U32_0,
                        tx_cnt: row[5]->U32_0,
                        fwd_cnt: row[6]->U32_0,
                        last_fwd_sent: row[7]->U32_0,
                        rx_cnt: row[8]->U32_0,
                        tx_buf: row[9]->Octets_0,
                        rx_buf: row[10]->Octets_0,
                        peer_eof: row[11]->Bool_0,
                        shutdown_pending: row[12]->U32_0,
                        send_closed: row[13]->Bool_0,
                        credit_update: row[14]->Bool_0,
                    },
                ),
            ),
        }
    }

    open spec fn good(k: u64, m: Link) -> bool {
        true
    }

    proof fn comes_back(k: u64, m: Link) {
        let row = Self::row(k, m);
        assert(row[0] == Token::U32(VsockConn::of(k).host_port));
        assert(row[1] == Token::U32(VsockConn::of(k).guest_port));
        assert(row[2] == Token::U8(state_code(m.state)));
        assert(row[3] == Token::U32(m.peer_buf_alloc));
        assert(row[4] == Token::U32(m.peer_fwd_cnt));
        assert(row[5] == Token::U32(m.tx_cnt));
        assert(row[6] == Token::U32(m.fwd_cnt));
        assert(row[7] == Token::U32(m.last_fwd_sent));
        assert(row[8] == Token::U32(m.rx_cnt));
        assert(row[9] == Token::Octets(m.tx_buf));
        assert(row[10] == Token::Octets(m.rx_buf));
        assert(row[11] == Token::Bool(m.peer_eof));
        assert(row[12] == Token::U32(m.shutdown_pending));
        assert(row[13] == Token::Bool(m.send_closed));
        assert(row[14] == Token::Bool(m.credit_update));
        assert((Self::of(row)->Ok_0).1 =~= m);
    }

    fn fields(&self, k: u64) -> (r: Vec<Field>) {
        let mut r: Vec<Field> = Vec::new();
        r.push(Field::U32(VsockConn::from_key(k).host_port));
        r.push(Field::U32(VsockConn::from_key(k).guest_port));
        r.push(Field::U8(code_of(self.state)));
        r.push(Field::U32(self.peer_buf_alloc));
        r.push(Field::U32(self.peer_fwd_cnt));
        r.push(Field::U32(self.tx_cnt));
        r.push(Field::U32(self.fwd_cnt));
        r.push(Field::U32(self.last_fwd_sent));
        r.push(Field::U32(self.rx_cnt));
        r.push(Field::Octets(list_octets(&self.tx_buf)));
        r.push(Field::Octets(list_octets(&self.rx_buf)));
        r.push(Field::Bool(self.peer_eof));
        r.push(Field::U32(self.shutdown_pending));
        r.push(Field::Bool(self.send_closed));
        r.push(Field::Bool(self.credit_update));
        assert(tokens(r@) =~= Self::row(k, self@));
        r
    }

    fn kind_list() -> (r: Vec<Kind>) {
        let mut r: Vec<Kind> = Vec::new();
        r.push(Kind::U32);
        r.push(Kind::U32);
        r.push(Kind::U8);
        r.push(Kind::U32);
        r.push(Kind::U32);
        r.push(Kind::U32);
        r.push(Kind::U32);
        r.push(Kind::U32);
        r.push(Kind::U32);
        r.push(Kind::Octets);
        r.push(Kind::Octets);
        r.push(Kind::Bool);
        r.push(Kind::U32);
        r.push(Kind::Bool);
        r.push(Kind::Bool);
        assert(r@ =~= Self::kinds());
        r
    }

    open spec fn row_bytes() -> u64 {
        8
    }

    fn least() -> (r: u64) {
        8
    }

    fn from_row(row: &Vec<Field>) -> (r: Result<(u64, Self), Fault>) {
        let ghost t = tokens(row@);
        assert(forall|i: int| 0 <= i < row@.len() ==> (#[trigger] row@[i])@ == t[i]);
        assert(t[0].is_kind(Self::kinds()[0]));
        assert(t[1].is_kind(Self::kinds()[1]));
        assert(t[2].is_kind(Self::kinds()[2]));
        assert(t[3].is_kind(Self::kinds()[3]));
        assert(t[4].is_kind(Self::kinds()[4]));
        assert(t[5].is_kind(Self::kinds()[5]));
        assert(t[6].is_kind(Self::kinds()[6]));
        assert(t[7].is_kind(Self::kinds()[7]));
        assert(t[8].is_kind(Self::kinds()[8]));
        assert(t[9].is_kind(Self::kinds()[9]));
        assert(t[10].is_kind(Self::kinds()[10]));
        assert(t[11].is_kind(Self::kinds()[11]));
        assert(t[12].is_kind(Self::kinds()[12]));
        assert(t[13].is_kind(Self::kinds()[13]));
        assert(t[14].is_kind(Self::kinds()[14]));
        let v: u8 = row[2].u8();
        let state: VsockState = match state_from(v) {
            None => {
                return Err(Fault::VsockState(v));
            },
            Some(state) => state,
        };
        let c = VsockConn { host_port: row[0].u32(), guest_port: row[1].u32() };
        Ok(
            (
                c.to_key(),
                VsockLink {
                    state,
                    peer_buf_alloc: row[3].u32(),
                    peer_fwd_cnt: row[4].u32(),
                    tx_cnt: row[5].u32(),
                    fwd_cnt: row[6].u32(),
                    last_fwd_sent: row[7].u32(),
                    rx_cnt: row[8].u32(),
                    tx_buf: queue_of(row[9].octets().as_slice()),
                    rx_buf: queue_of(row[10].octets().as_slice()),
                    peer_eof: row[11].bool(),
                    shutdown_pending: row[12].u32(),
                    send_closed: row[13].bool(),
                    credit_update: row[14].bool(),
                },
            ),
        )
    }
}

impl Row for VecDeque<VsockConn> {
    open spec fn row(k: u64, m: Seq<VsockConn>) -> Seq<Token> {
        seq![
            Token::U32(k as u32),
            Token::Pairs(port_pairs(m)),
        ]
    }

    open spec fn kinds() -> Seq<Kind> {
        seq![
            Kind::U32,
            Kind::Pairs,
        ]
    }

    open spec fn of(row: Seq<Token>) -> Result<(u64, Seq<VsockConn>), Fault> {
        Ok((row[0]->U32_0 as u64, conns_of(row[1]->Pairs_0)))
    }

    open spec fn good(k: u64, m: Seq<VsockConn>) -> bool {
        k <= u32::MAX
    }

    proof fn comes_back(k: u64, m: Seq<VsockConn>) {
        let row = Self::row(k, m);
        assert(row[0] == Token::U32(k as u32));
        assert(row[1] == Token::Pairs(port_pairs(m)));
        assert(conns_of(port_pairs(m)) =~= m);
        assert((Self::of(row)->Ok_0).1 =~= m);
    }

    fn fields(&self, k: u64) -> (r: Vec<Field>) {
        let mut r: Vec<Field> = Vec::new();
        r.push(Field::U32(k as u32));
        r.push(Field::Pairs(list_pairs(self)));
        assert(tokens(r@) =~= Self::row(k, self@));
        r
    }

    fn kind_list() -> (r: Vec<Kind>) {
        let mut r: Vec<Kind> = Vec::new();
        r.push(Kind::U32);
        r.push(Kind::Pairs);
        assert(r@ =~= Self::kinds());
        r
    }

    open spec fn row_bytes() -> u64 {
        12
    }

    fn least() -> (r: u64) {
        12
    }

    fn from_row(row: &Vec<Field>) -> (r: Result<(u64, Self), Fault>) {
        let ghost t = tokens(row@);
        assert(forall|i: int| 0 <= i < row@.len() ==> (#[trigger] row@[i])@ == t[i]);
        assert(t[0].is_kind(Self::kinds()[0]));
        assert(t[1].is_kind(Self::kinds()[1]));
        Ok((row[0].u32() as u64, queue_conns(&row[1].pairs())))
    }
}

proof fn lemma_header_len(h: Hdr)
    ensures
        h.bytes().len() == 44,
{
}

impl View for Hdr {
    type V = Hdr;

    open spec fn view(&self) -> Hdr {
        *self
    }
}

impl Item for Hdr {
    open spec fn line(m: Hdr) -> Seq<Token> {
        seq![
            Token::Raw(m.bytes()),
        ]
    }

    open spec fn line_kinds() -> Seq<Kind> {
        seq![
            Kind::Raw(44),
        ]
    }

    open spec fn item_of(row: Seq<Token>) -> Result<Hdr, Fault> {
        Ok(Hdr::of(row[0]->Raw_0))
    }

    #[verifier::spinoff_prover]
    #[verifier::rlimit(60)]
    proof fn line_comes_back(m: Hdr) {
        let row = Self::line(m);
        assert(row[0] == Token::Raw(m.bytes()));
        lemma_header_len(m);
        law_header_round_trip(m);
        assert(Self::item_of(row)->Ok_0 =~= m);
    }

    fn line_fields(&self) -> (r: Vec<Field>) {
        let mut r: Vec<Field> = Vec::new();
        r.push(Field::Raw(self.to_bytes()));
        assert(tokens(r@) =~= Self::line(self@));
        r
    }

    fn line_kind_list() -> (r: Vec<Kind>) {
        let mut r: Vec<Kind> = Vec::new();
        r.push(Kind::Raw(44));
        assert(r@ =~= Self::line_kinds());
        r
    }

    open spec fn line_bytes() -> u64 {
        44
    }

    fn least_line() -> (r: u64) {
        44
    }

    fn from_line(row: &Vec<Field>) -> (r: Result<Self, Fault>) {
        let ghost t = tokens(row@);
        assert(forall|i: int| 0 <= i < row@.len() ==> (#[trigger] row@[i])@ == t[i]);
        assert(t[0].is_kind(Self::line_kinds()[0]));
        let b: Vec<u8> = row[0].raw();
        Ok(Hdr::read(b.as_slice()))
    }
}

pub open spec fn vsock_kinds() -> Seq<Kind> {
    seq![
        Kind::U32,
        Kind::Bool,
        Kind::U64,
    ]
}

fn vsock_kinds_list() -> (r: Vec<Kind>)
    ensures
        r@ == vsock_kinds(),
{
    let mut r: Vec<Kind> = Vec::new();
    r.push(Kind::U32);
    r.push(Kind::Bool);
    r.push(Kind::U64);
    assert(r@ =~= vsock_kinds());
    r
}

pub open spec fn last_tokens(s: Vsock) -> Seq<Token> {
    seq![Token::U32(s.next_port), Token::Bool(s.reset_event), Token::U64(s.dropped)]
}

/// The saved device: the ports that listen, the connections with the data under
/// way, those not accepted yet, the control packets that wait.
pub open spec fn vsock_tokens(s: Vsock) -> Seq<Token> {
    seq![Token::U64(s.guest_cid)] + (table_tokens(rows_of::<bool>(s.listening)) + (table_tokens(
        rows_of::<VsockLink>(s.conns),
    ) + (table_tokens(rows_of::<VecDeque<VsockConn>>(s.backlog)) + (table_tokens(
        lines_of::<Hdr>(s.control),
    ) + last_tokens(s)))))
}

/// The device restored. The CID is configuration.
pub open spec fn vsock_from(s: Vsock, t: Seq<Token>) -> Result<(Vsock, Seq<Token>), Fault> {
    if t.len() == 0 || !(t[0] is U64) {
        Err(Fault::Missing)
    } else if t[0]->U64_0 != s.guest_cid {
        Err(Fault::Differs(Subject::GuestCid))
    } else {
        match table_from::<bool>(t.skip(1)) {
            Err(e) => Err(e),
            Ok((listening, t)) => match table_from::<VsockLink>(t) {
                Err(e) => Err(e),
                Ok((conns, t)) => match table_from::<VecDeque<VsockConn>>(t) {
                    Err(e) => Err(e),
                    Ok((backlog, t)) => match list_from::<Hdr>(t) {
                        Err(e) => Err(e),
                        Ok((control, t)) => if !fits(t, vsock_kinds()) {
                            Err(Fault::Missing)
                        } else {
                            Ok(
                                (
                                    Vsock {
                                        guest_cid: s.guest_cid,
                                        listening,
                                        conns,
                                        backlog,
                                        control,
                                        next_port: t[0]->U32_0,
                                        reset_event: t[1]->Bool_0,
                                        dropped: t[2]->U64_0,
                                    },
                                    t.skip(3),
                                ),
                            )
                        },
                    },
                },
            },
        }
    }
}

impl VirtioVsock {
    pub fn save_state(&self) -> (r: Vec<Field>)
        ensures
            tokens(r@) == vsock_tokens(self@),
    {
        let mut r: Vec<Field> = Vec::new();
        r.push(Field::U64(self.guest_cid));
        assert(tokens(r@) =~= seq![Token::U64(self@.guest_cid)]);
        append(&mut r, save_table(&self.listening));
        append(&mut r, save_table(&self.conns));
        append(&mut r, save_table(&self.backlog));
        let control: Vec<Hdr> = list_headers(&self.control);
        append(&mut r, save_list(&control));
        assert(items(control@) =~= self@.control);
        let mut last: Vec<Field> = Vec::new();
        last.push(Field::U32(self.next_port));
        last.push(Field::Bool(self.reset_event));
        last.push(Field::U64(self.dropped));
        assert(tokens(last@) =~= last_tokens(self@));
        append(&mut r, last);
        assert(tokens(r@) =~= vsock_tokens(self@));
        r
    }

    pub fn restore_state<S: Source>(&mut self, src: &mut S) -> (r: Result<(), Fault>)
        ensures
            match r {
                Ok(_) => vsock_from(old(self)@, old(src).rest()) == Ok::<(Vsock, Seq<Token>), Fault>(
                    (final(self)@, final(src).rest()),
                ),
                Err(e) => {
                    &&& vsock_from(old(self)@, old(src).rest()) == Err::<(Vsock, Seq<Token>), Fault>(
                        e,
                    )
                    &&& *final(self) == *old(self)
                },
            },
    {
        let ghost t = src.rest();
        let cid: u64 = match src.next(Kind::U64) {
            Ok(f) => f.u64(),
            Err(e) => {
                return Err(e);
            },
        };
        if cid != self.guest_cid {
            return Err(Fault::Differs(Subject::GuestCid));
        }
        let listening: Table<bool> = match restore_table(src) {
            Ok(v) => v,
            Err(e) => {
                return Err(e);
            },
        };
        let conns: Table<VsockLink> = match restore_table(src) {
            Ok(v) => v,
            Err(e) => {
                return Err(e);
            },
        };
        let backlog: Table<VecDeque<VsockConn>> = match restore_table(src) {
            Ok(v) => v,
            Err(e) => {
                return Err(e);
            },
        };
        let control: Vec<Hdr> = match restore_list(src) {
            Ok(v) => v,
            Err(e) => {
                return Err(e);
            },
        };
        assert(items(control@) =~= control@);
        let ghost t2 = src.rest();
        let kinds: Vec<Kind> = vsock_kinds_list();
        let row: Vec<Field> = match read_row(src, kinds.as_slice()) {
            Ok(row) => row,
            Err(e) => {
                return Err(e);
            },
        };
        assert(t2[0].is_kind(vsock_kinds()[0]));
        assert(t2[1].is_kind(vsock_kinds()[1]));
        assert(t2[2].is_kind(vsock_kinds()[2]));
        self.listening = listening;
        self.conns = conns;
        self.backlog = backlog;
        self.control = queue_headers(&control);
        self.next_port = row[0].u32();
        self.reset_event = row[1].bool();
        self.dropped = row[2].u64();
        assert(self@ =~= (vsock_from(old(self)@, t)->Ok_0).0);
        Ok(())
    }
}

/// The saved tables of a device and what follows them, one part after another.
spec fn parts_of(s: Vsock, rest: Seq<Token>) -> (Seq<Token>, Seq<Token>, Seq<Token>, Seq<Token>) {
    let p = last_tokens(s) + rest;
    let q = table_tokens(lines_of::<Hdr>(s.control)) + p;
    let r = table_tokens(rows_of::<VecDeque<VsockConn>>(s.backlog)) + q;
    (table_tokens(rows_of::<VsockLink>(s.conns)) + r, r, q, p)
}

#[verifier::spinoff_prover]
proof fn lemma_parts(s: Vsock, rest: Seq<Token>)
    ensures
        ({
            let t = vsock_tokens(s) + rest;
            let b = table_tokens(rows_of::<bool>(s.listening));
            &&& t.len() > 0
            &&& t[0] == Token::U64(s.guest_cid)
            &&& t.skip(1) == b + parts_of(s, rest).0
        }),
{
    let a = seq![Token::U64(s.guest_cid)];
    let b = table_tokens(rows_of::<bool>(s.listening));
    let c = table_tokens(rows_of::<VsockLink>(s.conns));
    let d = table_tokens(rows_of::<VecDeque<VsockConn>>(s.backlog));
    let e = table_tokens(lines_of::<Hdr>(s.control));
    let f = last_tokens(s);
    lemma_join(a, b + (c + (d + (e + f))), rest);
    lemma_join(b, c + (d + (e + f)), rest);
    lemma_join(c, d + (e + f), rest);
    lemma_join(d, e + f, rest);
    lemma_join(e, f, rest);
    let tail = b + parts_of(s, rest).0;
    assert(vsock_tokens(s) + rest == a + tail);
    assert((a + tail).skip(1) =~= tail);
}

/// A vsock device that was saved is restored as it was, on a device with the same
/// CID.
#[verifier::spinoff_prover]
pub proof fn law_vsock_device_comes_back(s: Vsock, n: Vsock, rest: Seq<Token>)
    requires
        tables_in_order(s),
        s.listening.len() <= u64::MAX,
        s.conns.len() <= u64::MAX,
        s.backlog.len() <= u64::MAX,
        s.control.len() <= u64::MAX,
        n.guest_cid == s.guest_cid,
    ensures
        vsock_from(n, vsock_tokens(s) + rest) == Ok::<(Vsock, Seq<Token>), Fault>((s, rest)),
{
    let f = last_tokens(s);
    let (p0, p1, p2, p3) = parts_of(s, rest);
    lemma_parts(s, rest);
    law_saved_table_comes_back::<bool>(s.listening, p0);
    law_saved_table_comes_back::<VsockLink>(s.conns, p1);
    law_saved_table_comes_back::<VecDeque<VsockConn>>(s.backlog, p2);
    law_saved_list_comes_back::<Hdr>(s.control, p3);
    assert(f[0] == Token::U32(s.next_port));
    assert(f[1] == Token::Bool(s.reset_event));
    assert(f[2] == Token::U64(s.dropped));
    law_row_comes_back(f, vsock_kinds(), rest);
}

} // verus!
