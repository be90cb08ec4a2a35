//! The stack in the saved state of the machine: MAC of the guest, outgoing frames,
//! TCP connections, UDP flows, indices, counters, event log, state of the upstream,
//! and the connections opened by the host. The configuration is not saved: it is
//! the one with which the stack was built.
use std::collections::VecDeque;
use vstd::prelude::*;
use crate::bytes::{copy_range, queue_of};
use crate::net::addr::{ConnId, Flow, Mac, VirtualTime};
use crate::net::events::{facts, NetEvent};
use crate::net::events_saved::{flow_from, flow_of, law_log_comes_back, log_from, log_tokens, read_log, save_log};
use crate::net::flows::{flows_ordered, indexed, lemma_indexed, FlowIndex, IndexPair};
use crate::net::gateway::{Net, Stats, UdpFlow};
use crate::net::hostfwd::{End, Ends, HostEnd, HostSide};
use crate::net::order_laws::{conns_in_order, hole_tables, kept_by, law_sinkhole_keeps_its_tables, law_tables_stay_in_order, stack_in_order};
use crate::net::sinkhole::{Hole, Sinkhole};
use crate::net::sinkhole_saved::{hole_in_order, law_sinkhole_comes_back, SavedUpstream};
use crate::net::stack::{frames, Stack};
use crate::net::stack_laws::{frames_taken, played, Action};
use crate::net::tcp::{Conn, TcpConn};
use crate::net::tcp_saved::{code_of_opt_reason, conn_kinds, conn_of, conn_tokens, law_connection_comes_back, lemma_conn_kinds, opt_reason_code, opt_reason_from, opt_reason_of, push_conn_kinds};
use crate::net::upstream::Upstream;
use crate::rows::{items, law_saved_list_comes_back, law_saved_table_comes_back, lines_of, list_from, restore_list, restore_table, rows_of, save_list, save_table, table_from, Item, Row};
use crate::snapshot::{add_field, append, copy_bytes, fits, frames_view, law_row_comes_back, lemma_join, read_row, table_tokens, tokens, Fault, Field, Kind, Source, Token};
use crate::table::{ordered, Table};

verus! {

/// Tag of the section of the upstream.
pub const UPST: u32 = 0x5550_5354;
/// Tag of the section of the host's connections.
pub const HFWD: u32 = 0x4846_5744;

impl Row for TcpConn {
    open spec fn row(k: u64, m: Conn) -> Seq<Token> {
        seq![Token::U64(k)] + conn_tokens(m)
    }

    open spec fn kinds() -> Seq<Kind> {
        seq![Kind::U64] + conn_kinds()
    }

    open spec fn of(row: Seq<Token>) -> Result<(u64, Conn), Fault> {
        match conn_of(row, 1) {
            Err(e) => Err(e),
            Ok(c) => if c.t.id != row[0]->U64_0 {
                Err(Fault::WrongKey { id: c.t.id, key: row[0]->U64_0 })
            } else {
                Ok((row[0]->U64_0, c))
            },
        }
    }

    open spec fn good(k: u64, m: Conn) -> bool {
        m.t.id == k
    }

    proof fn comes_back(k: u64, m: Conn) {
        let head = seq![Token::U64(k)];
        let row = Self::row(k, m);
        law_connection_comes_back(m, head, Seq::empty());
        assert(head + conn_tokens(m) + Seq::<Token>::empty() =~= row);
        lemma_conn_kinds();
        assert(row[0] == Token::U64(k));
        assert(Self::kinds()[0] == Kind::U64);
        assert(row.len() == Self::kinds().len());
        assert forall|i: int| 0 <= i < Self::kinds().len() implies (#[trigger] row[i]).is_kind(
            Self::kinds()[i],
        ) by {
            if i > 0 {
                assert(row.skip(1)[i - 1] == row[i]);
                assert(row.skip(1)[i - 1].is_kind(conn_kinds()[i - 1]));
                assert(Self::kinds()[i] == conn_kinds()[i - 1]);
            }
        }
    }

    fn fields(&self, k: u64) -> (r: Vec<Field>) {
        let mut r: Vec<Field> = Vec::new();
        add_field(&mut r, Field::U64(k));
        append(&mut r, self.save());
        assert(tokens(r@) =~= Self::row(k, self@));
        r
    }

    fn kind_list() -> (r: Vec<Kind>) {
        let mut r: Vec<Kind> = Vec::new();
        r.push(Kind::U64);
        push_conn_kinds(&mut r);
        assert(r@ =~= Self::kinds());
        r
    }

    open spec fn row_bytes() -> u64 {
        8
    }

    fn least() -> (r: u64) {
        8
    }

    fn from_row(row: &Vec<Field>) -> (r: Result<(u64, Self), Fault>) {
        let ghost t = tokens(row@);
        proof {
            lemma_conn_kinds();
            assert(t[0].is_kind(Self::kinds()[0]));
            assert(row@[0]@ == t[0]);
            assert forall|i: int| 0 <= i < conn_kinds().len() implies (#[trigger] t.skip(1)[i]).is_kind(
                conn_kinds()[i],
            ) by {
                assert(t[i + 1].is_kind(Self::kinds()[i + 1]));
            }
        }
        let key: u64 = row[0].u64();
        let c: TcpConn = match TcpConn::restore(row, 1) {
            Ok(c) => c,
            Err(e) => {
                return Err(e);
            },
        };
        if c.t.id != key {
            return Err(Fault::WrongKey { id: c.t.id, key });
        }
        Ok((key, c))
    }
}

impl Row for UdpFlow {
    open spec fn row(k: u64, m: UdpFlow) -> Seq<Token> {
        seq![
            Token::U64(k),
            Token::Ip(m.flow.guest.ip),
            Token::U16(m.flow.guest.port),
            Token::Ip(m.flow.remote.ip),
            Token::U16(m.flow.remote.port),
            Token::U64(m.last_activity.0),
            Token::U64(m.bytes_to_remote),
            Token::U64(m.bytes_to_guest),
        ]
    }

    open spec fn kinds() -> Seq<Kind> {
        seq![
            Kind::U64,
            Kind::Ip,
            Kind::U16,
            Kind::Ip,
            Kind::U16,
            Kind::U64,
            Kind::U64,
            Kind::U64,
        ]
    }

    open spec fn of(row: Seq<Token>) -> Result<(u64, UdpFlow), Fault> {
        Ok(
            (
                row[0]->U64_0,
                UdpFlow {
                    flow: flow_of(row, 1),
                    last_activity: VirtualTime(row[5]->U64_0),
                    bytes_to_remote: row[6]->U64_0,
                    bytes_to_guest: row[7]->U64_0,
                },
            ),
        )
    }

    open spec fn good(k: u64, m: UdpFlow) -> bool {
        true
    }

    proof fn comes_back(k: u64, m: UdpFlow) {
        let row = Self::row(k, m);
        assert(row[0] == Token::U64(k));
        assert(row[1] == Token::Ip(m.flow.guest.ip));
        assert(row[2] == Token::U16(m.flow.guest.port));
        assert(row[3] == Token::Ip(m.flow.remote.ip));
        assert(row[4] == Token::U16(m.flow.remote.port));
        assert(row[5] == Token::U64(m.last_activity.0));
        assert(row[6] == Token::U64(m.bytes_to_remote));
        assert(row[7] == Token::U64(m.bytes_to_guest));
        assert((Self::of(row)->Ok_0).1 =~= m);
    }

    fn fields(&self, k: u64) -> (r: Vec<Field>) {
        let mut r: Vec<Field> = Vec::new();
        r.push(Field::U64(k));
        r.push(Field::Ip(self.flow.guest.ip));
        r.push(Field::U16(self.flow.guest.port));
        r.push(Field::Ip(self.flow.remote.ip));
        r.push(Field::U16(self.flow.remote.port));
        r.push(Field::U64(self.last_activity.0));
        r.push(Field::U64(self.bytes_to_remote));
        r.push(Field::U64(self.bytes_to_guest));
        assert(tokens(r@) =~= Self::row(k, self@));
        r
    }

    fn kind_list() -> (r: Vec<Kind>) {
        let mut r: Vec<Kind> = Vec::new();
        r.push(Kind::U64);
        r.push(Kind::Ip);
        r.push(Kind::U16);
        r.push(Kind::Ip);
        r.push(Kind::U16);
        r.push(Kind::U64);
        r.push(Kind::U64);
        r.push(Kind::U64);
        assert(r@ =~= Self::kinds());
        r
    }

    open spec fn row_bytes() -> u64 {
        36
    }

    fn least() -> (r: u64) {
        36
    }

    fn from_row(row: &Vec<Field>) -> (r: Result<(u64, Self), Fault>) {
        let ghost t = tokens(row@);
        assert(forall|i: int| 0 <= i < row@.len() ==> (#[trigger] row@[i])@ == t[i]);
        assert(t[0].is_kind(Self::kinds()[0]));
        assert(t[1].is_kind(Self::kinds()[1]));
        assert(t[2].is_kind(Self::kinds()[2]));
        assert(t[3].is_kind(Self::kinds()[3]));
        assert(t[4].is_kind(Self::kinds()[4]));
        assert(t[5].is_kind(Self::kinds()[5]));
        assert(t[6].is_kind(Self::kinds()[6]));
        assert(t[7].is_kind(Self::kinds()[7]));
        Ok(
            (
                row[0].u64(),
                UdpFlow {
                    flow: flow_from(row, 1),
                    last_activity: VirtualTime(row[5].u64()),
                    bytes_to_remote: row[6].u64(),
                    bytes_to_guest: row[7].u64(),
                },
            ),
        )
    }
}

impl Row for HostEnd {
    open spec fn row(k: u64, m: End) -> Seq<Token> {
        seq![
            Token::U64(k),
            Token::Ip(m.flow.guest.ip),
            Token::U16(m.flow.guest.port),
            Token::Ip(m.flow.remote.ip),
            Token::U16(m.flow.remote.port),
            Token::Bool(m.pending_open),
            Token::Bytes(m.to_guest),
            Token::Bytes(m.from_guest),
            Token::Bool(m.shutdown),
            Token::Bool(m.abort),
            Token::Bool(m.guest_fin),
            Token::OptU8(opt_reason_code(m.closed)),
            Token::Bool(m.released),
        ]
    }

    open spec fn kinds() -> Seq<Kind> {
        seq![
            Kind::U64,
            Kind::Ip,
            Kind::U16,
            Kind::Ip,
            Kind::U16,
            Kind::Bool,
            Kind::Bytes,
            Kind::Bytes,
            Kind::Bool,
            Kind::Bool,
            Kind::Bool,
            Kind::OptU8,
            Kind::Bool,
        ]
    }

    open spec fn of(row: Seq<Token>) -> Result<(u64, End), Fault> {
        match opt_reason_of(row[11]->OptU8_0) {
            Err(e) => Err(e),
            Ok(closed) => Ok(
                (
                    row[0]->U64_0,
                    End {
                        flow: flow_of(row, 1),
                        pending_open: row[5]->Bool_0,
                        to_guest: row[6]->Bytes_0,
                        from_guest: row[7]->Bytes_0,
                        shutdown: row[8]->Bool_0,
                        abort: row[9]->Bool_0,
                        guest_fin: row[10]->Bool_0,
                        closed,
                        released: row[12]->Bool_0,
                    },
                ),
            ),
        }
    }

    open spec fn good(k: u64, m: End) -> bool {
        true
    }

    proof fn comes_back(k: u64, m: End) {
        let row = Self::row(k, m);
        assert(row[0] == Token::U64(k));
        assert(row[1] == Token::Ip(m.flow.guest.ip));
        assert(row[2] == Token::U16(m.flow.guest.port));
        assert(row[3] == Token::Ip(m.flow.remote.ip));
        assert(row[4] == Token::U16(m.flow.remote.port));
        assert(row[5] == Token::Bool(m.pending_open));
        assert(row[6] == Token::Bytes(m.to_guest));
        assert(row[7] == Token::Bytes(m.from_guest));
        assert(row[8] == Token::Bool(m.shutdown));
        assert(row[9] == Token::Bool(m.abort));
        assert(row[10] == Token::Bool(m.guest_fin));
        assert(row[11] == Token::OptU8(opt_reason_code(m.closed)));
        assert(row[12] == Token::Bool(m.released));
        assert((Self::of(row)->Ok_0).1 =~= m);
    }

    fn fields(&self, k: u64) -> (r: Vec<Field>) {
        let to_guest: Vec<u8> = copy_range(&self.to_guest, 0, self.to_guest.len());
        let from_guest: Vec<u8> = copy_range(&self.from_guest, 0, self.from_guest.len());
        assert(to_guest@ =~= self@.to_guest);
        assert(from_guest@ =~= self@.from_guest);
        let mut r: Vec<Field> = Vec::new();
        r.push(Field::U64(k));
        r.push(Field::Ip(self.flow.guest.ip));
        r.push(Field::U16(self.flow.guest.port));
        r.push(Field::Ip(self.flow.remote.ip));
        r.push(Field::U16(self.flow.remote.port));
        r.push(Field::Bool(self.pending_open));
        r.push(Field::Bytes(to_guest));
        r.push(Field::Bytes(from_guest));
        r.push(Field::Bool(self.shutdown));
        r.push(Field::Bool(self.abort));
        r.push(Field::Bool(self.guest_fin));
        r.push(Field::OptU8(code_of_opt_reason(self.closed)));
        r.push(Field::Bool(self.released));
        assert(tokens(r@) =~= Self::row(k, self@));
        r
    }

    fn kind_list() -> (r: Vec<Kind>) {
        let mut r: Vec<Kind> = Vec::new();
        r.push(Kind::U64);
        r.push(Kind::Ip);
        r.push(Kind::U16);
        r.push(Kind::Ip);
        r.push(Kind::U16);
        r.push(Kind::Bool);
        r.push(Kind::Bytes);
        r.push(Kind::Bytes);
        r.push(Kind::Bool);
        r.push(Kind::Bool);
        r.push(Kind::Bool);
        r.push(Kind::OptU8);
        r.push(Kind::Bool);
        assert(r@ =~= Self::kinds());
        r
    }

    open spec fn row_bytes() -> u64 {
        42
    }

    fn least() -> (r: u64) {
        42
    }

    fn from_row(row: &Vec<Field>) -> (r: Result<(u64, Self), Fault>) {
        let ghost t = tokens(row@);
        assert(forall|i: int| 0 <= i < row@.len() ==> (#[trigger] row@[i])@ == t[i]);
        assert(t[0].is_kind(Self::kinds()[0]));
        assert(t[1].is_kind(Self::kinds()[1]));
        assert(t[2].is_kind(Self::kinds()[2]));
        assert(t[3].is_kind(Self::kinds()[3]));
        assert(t[4].is_kind(Self::kinds()[4]));
        assert(t[5].is_kind(Self::kinds()[5]));
        assert(t[6].is_kind(Self::kinds()[6]));
        assert(t[7].is_kind(Self::kinds()[7]));
        assert(t[8].is_kind(Self::kinds()[8]));
        assert(t[9].is_kind(Self::kinds()[9]));
        assert(t[10].is_kind(Self::kinds()[10]));
        assert(t[11].is_kind(Self::kinds()[11]));
        assert(t[12].is_kind(Self::kinds()[12]));
        let to_guest: Vec<u8> = row[6].bytes();
        let from_guest: Vec<u8> = row[7].bytes();
        match opt_reason_from(row[11].opt_u8()) {
            Err(e) => Err(e),
            Ok(closed) => Ok(
                (
                    row[0].u64(),
                    HostEnd {
                        flow: flow_from(row, 1),
                        pending_open: row[5].bool(),
                        to_guest: queue_of(to_guest.as_slice()),
                        from_guest: queue_of(from_guest.as_slice()),
                        shutdown: row[8].bool(),
                        abort: row[9].bool(),
                        guest_fin: row[10].bool(),
                        closed,
                        released: row[12].bool(),
                    },
                ),
            ),
        }
    }
}

impl Item for IndexPair {
    open spec fn line(m: (Flow, u64)) -> Seq<Token> {
        seq![
            Token::Ip(m.0.guest.ip),
            Token::U16(m.0.guest.port),
            Token::Ip(m.0.remote.ip),
            Token::U16(m.0.remote.port),
            Token::U64(m.1),
        ]
    }

    open spec fn line_kinds() -> Seq<Kind> {
        seq![
            Kind::Ip,
            Kind::U16,
            Kind::Ip,
            Kind::U16,
            Kind::U64,
        ]
    }

    open spec fn item_of(row: Seq<Token>) -> Result<(Flow, u64), Fault> {
        Ok((flow_of(row, 0), row[4]->U64_0))
    }

    proof fn line_comes_back(m: (Flow, u64)) {
        let row = Self::line(m);
        assert(row[0] == Token::Ip(m.0.guest.ip));
        assert(row[1] == Token::U16(m.0.guest.port));
        assert(row[2] == Token::Ip(m.0.remote.ip));
        assert(row[3] == Token::U16(m.0.remote.port));
        assert(row[4] == Token::U64(m.1));
        assert(Self::item_of(row)->Ok_0 =~= m);
    }

    fn line_fields(&self) -> (r: Vec<Field>) {
        let mut r: Vec<Field> = Vec::new();
        r.push(Field::Ip(self.flow.guest.ip));
        r.push(Field::U16(self.flow.guest.port));
        r.push(Field::Ip(self.flow.remote.ip));
        r.push(Field::U16(self.flow.remote.port));
        r.push(Field::U64(self.id));
        assert(tokens(r@) =~= Self::line(self@));
        r
    }

    fn line_kind_list() -> (r: Vec<Kind>) {
        let mut r: Vec<Kind> = Vec::new();
        r.push(Kind::Ip);
        r.push(Kind::U16);
        r.push(Kind::Ip);
        r.push(Kind::U16);
        r.push(Kind::U64);
        assert(r@ =~= Self::line_kinds());
        r
    }

    open spec fn line_bytes() -> u64 {
        20
    }

    fn least_line() -> (r: u64) {
        20
    }

    fn from_line(row: &Vec<Field>) -> (r: Result<Self, Fault>) {
        let ghost t = tokens(row@);
        assert(forall|i: int| 0 <= i < row@.len() ==> (#[trigger] row@[i])@ == t[i]);
        assert(t[0].is_kind(Self::line_kinds()[0]));
        assert(t[1].is_kind(Self::line_kinds()[1]));
        assert(t[2].is_kind(Self::line_kinds()[2]));
        assert(t[3].is_kind(Self::line_kinds()[3]));
        assert(t[4].is_kind(Self::line_kinds()[4]));
        Ok(IndexPair { flow: flow_from(row, 0), id: row[4].u64() })
    }
}

/// The index of the pairs of a list.
fn index_pairs(list: &Vec<IndexPair>) -> (r: FlowIndex)
    ensures
        r@ == indexed(items(list@), list@.len()),
{
    let mut r = FlowIndex::new();
    let ghost all = items(list@);
    let mut i: usize = 0;
    while i < list.len()
        invariant
            i <= list@.len(),
            all == items(list@),
            r@ == indexed(all, i as nat),
        decreases list@.len() - i,
    {
        assert(all[i as int] == list@[i as int]@);
        r.insert(list[i].flow, list[i].id);
        i += 1;
    }
    r
}

/// The kinds of the fields before the tables.
pub open spec fn front_kinds() -> Seq<Kind> {
    seq![Kind::OptMac, Kind::Frames]
}

/// The kinds of the counters.
pub open spec fn counter_kinds() -> Seq<Kind> {
    seq![
        Kind::U64,
        Kind::U16,
        Kind::U64,
        Kind::U64,
        Kind::U64,
        Kind::U64,
        Kind::U64,
        Kind::U64,
        Kind::U64,
        Kind::U64,
        Kind::U64,
        Kind::U64,
    ]
}

/// The counters.
pub open spec fn counter_tokens(next_id: u64, ip_ident: u16, s: Stats) -> Seq<Token> {
    seq![
        Token::U64(next_id),
        Token::U16(ip_ident),
        Token::U64(s.frames_in),
        Token::U64(s.frames_out),
        Token::U64(s.malformed),
        Token::U64(s.bad_checksum),
        Token::U64(s.not_for_us),
        Token::U64(s.ipv6),
        Token::U64(s.fragments),
        Token::U64(s.ignored),
        Token::U64(s.udp_dropped),
        Token::U64(s.tcp_rst_unknown),
    ]
}

/// The counters in a row.
pub open spec fn stats_of(row: Seq<Token>) -> Stats {
    Stats {
        frames_in: row[2]->U64_0,
        frames_out: row[3]->U64_0,
        malformed: row[4]->U64_0,
        bad_checksum: row[5]->U64_0,
        not_for_us: row[6]->U64_0,
        ipv6: row[7]->U64_0,
        fragments: row[8]->U64_0,
        ignored: row[9]->U64_0,
        udp_dropped: row[10]->U64_0,
        tcp_rst_unknown: row[11]->U64_0,
    }
}

/// The frames and the connections.
pub open spec fn conns_tokens<M>(n: Net<M>) -> Seq<Token> {
    seq![Token::OptMac(n.guest_mac), Token::Frames(n.out)] + (table_tokens(
        rows_of::<TcpConn>(n.tcp),
    ) + table_tokens(lines_of::<IndexPair>(n.tcp_index)))
}

/// The UDP flows.
pub open spec fn flows_tokens<M>(n: Net<M>) -> Seq<Token> {
    table_tokens(rows_of::<UdpFlow>(n.udp)) + table_tokens(lines_of::<IndexPair>(n.udp_index))
}

/// What comes before the upstream.
pub open spec fn links_tokens<M>(n: Net<M>) -> Seq<Token> {
    conns_tokens(n) + (flows_tokens(n) + (counter_tokens(n.next_id, n.ip_ident, n.stats) + (seq![
        Token::Count(n.log.len() as u64),
    ] + log_tokens(n.log))))
}

/// The host's connections.
pub open spec fn ends_tokens(e: Ends) -> Seq<Token> {
    seq![Token::Section(HFWD), Token::U16(e.next_port)] + (table_tokens(rows_of::<HostEnd>(e.conns))
        + seq![Token::End])
}

/// A saved stack, with the fields of its upstream.
pub open spec fn net_tokens<M>(n: Net<M>, up: Seq<Token>) -> Seq<Token> {
    links_tokens(n) + (seq![Token::Section(UPST)] + (up + (seq![Token::End] + ends_tokens(n.host))))
}

/// The frames and the connections.
pub open spec fn tcp_from<M>(n: Net<M>, s: Seq<Token>) -> Result<(Net<M>, Seq<Token>), Fault> {
    if !fits(s, front_kinds()) {
        Err(Fault::Missing)
    } else {
        match table_from::<TcpConn>(s.skip(2)) {
            Err(e) => Err(e),
            Ok((tcp, s1)) => match list_from::<IndexPair>(s1) {
                Err(e) => Err(e),
                Ok((list, s2)) => Ok(
                    (
                        Net {
                            guest_mac: s[0]->OptMac_0,
                            out: s[1]->Frames_0,
                            tcp,
                            tcp_index: indexed(list, list.len()),
                            ..n
                        },
                        s2,
                    ),
                ),
            },
        }
    }
}

/// The UDP flows.
pub open spec fn udp_from<M>(n: Net<M>, s: Seq<Token>) -> Result<(Net<M>, Seq<Token>), Fault> {
    match table_from::<UdpFlow>(s) {
        Err(e) => Err(e),
        Ok((udp, s1)) => match list_from::<IndexPair>(s1) {
            Err(e) => Err(e),
            Ok((list, s2)) => Ok(
                (Net { udp, udp_index: indexed(list, list.len()), ..n }, s2),
            ),
        },
    }
}

/// The counters and the log.
pub open spec fn counters_from<M>(n: Net<M>, s: Seq<Token>) -> Result<(Net<M>, Seq<Token>), Fault> {
    if !fits(s, counter_kinds()) {
        Err(Fault::Missing)
    } else {
        match log_from(s.skip(12)) {
            Err(e) => Err(e),
            Ok((log, s1)) => Ok(
                (
                    Net {
                        next_id: s[0]->U64_0,
                        ip_ident: s[1]->U16_0,
                        stats: stats_of(s),
                        log,
                        ..n
                    },
                    s1,
                ),
            ),
        }
    }
}

/// The upstream, in its section.
pub open spec fn upstream_from<U: SavedUpstream>(n: Net<U::Model>, s: Seq<Token>) -> Result<
    (Net<U::Model>, Seq<Token>),
    Fault,
> {
    if s.len() == 0 || s[0] != Token::Section(UPST) {
        Err(Fault::Missing)
    } else {
        match U::revived(n.up, s.skip(1)) {
            Err(e) => Err(e),
            Ok((up, s1)) => if s1.len() == 0 || s1[0] != Token::End {
                Err(Fault::Missing)
            } else {
                Ok((Net { up, ..n }, s1.skip(1)))
            },
        }
    }
}

/// The host's connections, in their section.
pub open spec fn ends_from<M>(n: Net<M>, s: Seq<Token>) -> Result<(Net<M>, Seq<Token>), Fault> {
    if !fits(s, seq![Kind::Section(HFWD), Kind::U16]) {
        Err(Fault::Missing)
    } else {
        match table_from::<HostEnd>(s.skip(2)) {
            Err(e) => Err(e),
            Ok((conns, s1)) => if s1.len() == 0 || s1[0] != Token::End {
                Err(Fault::Missing)
            } else {
                Ok((Net { host: Ends { conns, next_port: s[1]->U16_0 }, ..n }, s1.skip(1)))
            },
        }
    }
}

/// The stack restored: each piece is read after the one before it.
pub open spec fn net_from<U: SavedUpstream>(n: Net<U::Model>, s: Seq<Token>) -> Result<
    (Net<U::Model>, Seq<Token>),
    Fault,
> {
    match tcp_from(n, s) {
        Err(e) => Err(e),
        Ok((n1, s1)) => match udp_from(n1, s1) {
            Err(e) => Err(e),
            Ok((n2, s2)) => match counters_from(n2, s2) {
                Err(e) => Err(e),
                Ok((n3, s3)) => match upstream_from::<U>(n3, s3) {
                    Err(e) => Err(e),
                    Ok((n4, s4)) => ends_from(n4, s4),
                },
            },
        },
    }
}

fn queue_frames(v: Vec<Vec<u8>>) -> (r: VecDeque<Vec<u8>>)
    ensures
        frames(r@) == frames_view(v@),
{
    let mut q: VecDeque<Vec<u8>> = VecDeque::new();
    let mut i: usize = 0;
    while i < v.len()
        invariant
            i <= v@.len(),
            q@.len() == i,
            frames(q@) == frames_view(v@).take(i as int),
        decreases v@.len() - i,
    {
        q.push_back(copy_bytes(&v[i]));
        i += 1;
        assert(frames(q@) =~= frames_view(v@).take(i as int));
    }
    assert(frames(q@) =~= frames_view(v@));
    q
}

fn list_frames(q: &VecDeque<Vec<u8>>) -> (r: Vec<Vec<u8>>)
    ensures
        frames_view(r@) == frames(q@),
{
    let mut r: Vec<Vec<u8>> = Vec::new();
    let mut i: usize = 0;
    while i < q.len()
        invariant
            i <= q@.len(),
            r@.len() == i,
            frames_view(r@) == frames(q@).take(i as int),
        decreases q@.len() - i,
    {
        r.push(copy_bytes(&q[i]));
        i += 1;
        assert(frames_view(r@) =~= frames(q@).take(i as int));
    }
    assert(frames_view(r@) =~= frames(q@));
    r
}

/// The frames and the connections, read.
struct Links {
    guest_mac: Option<Mac>,
    out: VecDeque<Vec<u8>>,
    tcp: Table<TcpConn>,
    tcp_index: FlowIndex,
}

fn read_links<S: Source, M>(src: &mut S, n: Ghost<Net<M>>) -> (r: Result<Links, Fault>)
    ensures
        match r {
            Ok(l) => tcp_from(n@, old(src).rest()) == Ok::<(Net<M>, Seq<Token>), Fault>(
                (
                    Net {
                        guest_mac: l.guest_mac,
                        out: frames(l.out@),
                        tcp: l.tcp@,
                        tcp_index: l.tcp_index@,
                        ..n@
                    },
                    final(src).rest(),
                ),
            ),
            Err(e) => tcp_from(n@, old(src).rest()) == Err::<(Net<M>, Seq<Token>), Fault>(e),
        },
{
    let ghost s = src.rest();
    let mut kinds: Vec<Kind> = Vec::new();
    kinds.push(Kind::OptMac);
    kinds.push(Kind::Frames);
    assert(kinds@ =~= front_kinds());
    let front: Vec<Field> = match read_row(src, kinds.as_slice()) {
        Ok(v) => v,
        Err(e) => {
            return Err(e);
        },
    };
    assert(front@[0]@ == s[0] && front@[1]@ == s[1]);
    assert(s[0].is_kind(front_kinds()[0]) && s[1].is_kind(front_kinds()[1]));
    let tcp: Table<TcpConn> = match restore_table(src) {
        Ok(t) => t,
        Err(e) => {
            return Err(e);
        },
    };
    let index: Vec<IndexPair> = match restore_list(src) {
        Ok(v) => v,
        Err(e) => {
            return Err(e);
        },
    };
    Ok(
        Links {
            guest_mac: front[0].opt_mac(),
            out: queue_frames(front[1].frames()),
            tcp,
            tcp_index: index_pairs(&index),
        },
    )
}

fn read_flows<S: Source, M>(src: &mut S, n: Ghost<Net<M>>) -> (r: Result<
    (Table<UdpFlow>, FlowIndex),
    Fault,
>)
    ensures
        match r {
            Ok((udp, index)) => udp_from(n@, old(src).rest()) == Ok::<(Net<M>, Seq<Token>), Fault>(
                (Net { udp: udp@, udp_index: index@, ..n@ }, final(src).rest()),
            ),
            Err(e) => udp_from(n@, old(src).rest()) == Err::<(Net<M>, Seq<Token>), Fault>(e),
        },
{
    let udp: Table<UdpFlow> = match restore_table(src) {
        Ok(t) => t,
        Err(e) => {
            return Err(e);
        },
    };
    let index: Vec<IndexPair> = match restore_list(src) {
        Ok(v) => v,
        Err(e) => {
            return Err(e);
        },
    };
    Ok((udp, index_pairs(&index)))
}

/// The counters and the log, read.
struct Counters {
    next_id: ConnId,
    ip_ident: u16,
    stats: Stats,
    log: Vec<NetEvent>,
}

fn read_counters<S: Source, M>(src: &mut S, n: Ghost<Net<M>>) -> (r: Result<Counters, Fault>)
    ensures
        match r {
            Ok(c) => counters_from(n@, old(src).rest()) == Ok::<(Net<M>, Seq<Token>), Fault>(
                (
                    Net {
                        next_id: c.next_id,
                        ip_ident: c.ip_ident,
                        stats: c.stats,
                        log: facts(c.log@),
                        ..n@
                    },
                    final(src).rest(),
                ),
            ),
            Err(e) => counters_from(n@, old(src).rest()) == Err::<(Net<M>, Seq<Token>), Fault>(e),
        },
{
    let ghost s = src.rest();
    let mut kinds: Vec<Kind> = Vec::new();
    kinds.push(Kind::U64);
    kinds.push(Kind::U16);
    let mut i: usize = 0;
    while i < 10
        invariant
            i <= 10,
            kinds@ =~= seq![Kind::U64, Kind::U16] + Seq::new(i as nat, |k: int| Kind::U64),
        decreases 10 - i,
    {
        kinds.push(Kind::U64);
        i += 1;
    }
    assert(kinds@ =~= counter_kinds());
    let row: Vec<Field> = match read_row(src, kinds.as_slice()) {
        Ok(v) => v,
        Err(e) => {
            return Err(e);
        },
    };
    assert forall|k: int| 0 <= k < 12 implies (#[trigger] row@[k])@ == s[k] && s[k].is_kind(
        counter_kinds()[k],
    ) by {
    }
    let log: Vec<NetEvent> = match read_log(src) {
        Ok(v) => v,
        Err(e) => {
            return Err(e);
        },
    };
    let stats = Stats {
        frames_in: row[2].u64(),
        frames_out: row[3].u64(),
        malformed: row[4].u64(),
        bad_checksum: row[5].u64(),
        not_for_us: row[6].u64(),
        ipv6: row[7].u64(),
        fragments: row[8].u64(),
        ignored: row[9].u64(),
        udp_dropped: row[10].u64(),
        tcp_rst_unknown: row[11].u64(),
    };
    Ok(Counters { next_id: row[0].u64(), ip_ident: row[1].u16(), stats, log })
}

fn read_ends<S: Source, M>(src: &mut S, n: Ghost<Net<M>>) -> (r: Result<HostSide, Fault>)
    ensures
        match r {
            Ok(h) => ends_from(n@, old(src).rest()) == Ok::<(Net<M>, Seq<Token>), Fault>(
                (
                    Net { host: Ends { conns: h.conns@, next_port: h.next_port }, ..n@ },
                    final(src).rest(),
                ),
            ),
            Err(e) => ends_from(n@, old(src).rest()) == Err::<(Net<M>, Seq<Token>), Fault>(e),
        },
{
    let ghost s = src.rest();
    let mut kinds: Vec<Kind> = Vec::new();
    kinds.push(Kind::Section(HFWD));
    kinds.push(Kind::U16);
    assert(kinds@ =~= seq![Kind::Section(HFWD), Kind::U16]);
    let front: Vec<Field> = match read_row(src, kinds.as_slice()) {
        Ok(v) => v,
        Err(e) => {
            return Err(e);
        },
    };
    assert(front@[1]@ == s[1]);
    assert(s[1].is_kind(kinds@[1]));
    let conns: Table<HostEnd> = match restore_table(src) {
        Ok(t) => t,
        Err(e) => {
            return Err(e);
        },
    };
    match src.next(Kind::End) {
        Ok(_) => {},
        Err(e) => {
            return Err(e);
        },
    }
    Ok(HostSide { conns, next_port: front[1].u16() })
}

impl<U: SavedUpstream> Stack<U> {
    fn links_fields(&self) -> (r: Vec<Field>)
        ensures
            tokens(r@) == links_tokens(self@),
    {
        let mut r: Vec<Field> = Vec::new();
        add_field(&mut r, Field::OptMac(self.guest_mac));
        add_field(&mut r, Field::Frames(list_frames(&self.out)));
        append(&mut r, save_table(&self.tcp));
        append(&mut r, save_list(&self.tcp_index.pairs));
        assert(items(self.tcp_index.pairs@) =~= self.tcp_index@);
        append(&mut r, save_table(&self.udp));
        append(&mut r, save_list(&self.udp_index.pairs));
        assert(items(self.udp_index.pairs@) =~= self.udp_index@);
        append(&mut r, self.counter_fields());
        append(&mut r, save_log(&self.fx.log));
        assert(tokens(r@) =~= links_tokens(self@));
        r
    }

    fn counter_fields(&self) -> (r: Vec<Field>)
        ensures
            tokens(r@) == counter_tokens(self@.next_id, self@.ip_ident, self@.stats),
    {
        let mut r: Vec<Field> = Vec::new();
        r.push(Field::U64(self.next_id));
        r.push(Field::U16(self.ip_ident));
        r.push(Field::U64(self.stats.frames_in));
        r.push(Field::U64(self.stats.frames_out));
        r.push(Field::U64(self.stats.malformed));
        r.push(Field::U64(self.stats.bad_checksum));
        r.push(Field::U64(self.stats.not_for_us));
        r.push(Field::U64(self.stats.ipv6));
        r.push(Field::U64(self.stats.fragments));
        r.push(Field::U64(self.stats.ignored));
        r.push(Field::U64(self.stats.udp_dropped));
        r.push(Field::U64(self.stats.tcp_rst_unknown));
        assert(tokens(r@) =~= counter_tokens(self@.next_id, self@.ip_ident, self@.stats));
        r
    }

    /// The fields of the stack, in order.
    pub fn save(&self) -> (r: Vec<Field>)
        ensures
            tokens(r@) == net_tokens(self@, U::saved(self@.up)),
    {
        let mut r: Vec<Field> = self.links_fields();
        add_field(&mut r, Field::Section(UPST));
        append(&mut r, self.upstream.save());
        add_field(&mut r, Field::End);
        add_field(&mut r, Field::Section(HFWD));
        add_field(&mut r, Field::U16(self.host.next_port));
        append(&mut r, save_table(&self.host.conns));
        add_field(&mut r, Field::End);
        assert(tokens(r@) =~= net_tokens(self@, U::saved(self@.up)));
        r
    }

    /// Restores a saved stack. If it fails, at most the upstream has changed. The
    /// connections are taken as they were saved: see [`Stack::is_sound`].
    pub fn restore<S: Source>(&mut self, src: &mut S) -> (r: Result<(), Fault>)
        ensures
            final(self).idle() == old(self).idle(),
            old(self).idle() ==> final(self).wf() == conns_sound(final(self)@.tcp),
            match r {
                Ok(_) => net_from::<U>(old(self)@, old(src).rest()) == Ok::<
                    (Net<U::Model>, Seq<Token>),
                    Fault,
                >((final(self)@, final(src).rest())),
                Err(e) => {
                    &&& net_from::<U>(old(self)@, old(src).rest()) == Err::<
                        (Net<U::Model>, Seq<Token>),
                        Fault,
                    >(e)
                    &&& final(self)@ == (Net { up: final(self)@.up, ..old(self)@ })
                    &&& final(self).wf() == old(self).wf()
                },
            },
    {
        let ghost n0 = self@;
        let ghost s0 = src.rest();
        let links: Links = match read_links::<S, U::Model>(src, Ghost(n0)) {
            Ok(l) => l,
            Err(e) => {
                return Err(e);
            },
        };
        let ghost n1 = Net {
            guest_mac: links.guest_mac,
            out: frames(links.out@),
            tcp: links.tcp@,
            tcp_index: links.tcp_index@,
            ..n0
        };
        let (udp, udp_index) = match read_flows::<S, U::Model>(src, Ghost(n1)) {
            Ok(t) => t,
            Err(e) => {
                return Err(e);
            },
        };
        let ghost n2 = Net { udp: udp@, udp_index: udp_index@, ..n1 };
        let counters: Counters = match read_counters::<S, U::Model>(src, Ghost(n2)) {
            Ok(c) => c,
            Err(e) => {
                return Err(e);
            },
        };
        let ghost n3 = Net {
            next_id: counters.next_id,
            ip_ident: counters.ip_ident,
            stats: counters.stats,
            log: facts(counters.log@),
            ..n2
        };
        match src.next(Kind::Section(UPST)) {
            Ok(_) => {},
            Err(e) => {
                return Err(e);
            },
        }
        match self.upstream.restore(src) {
            Ok(()) => {},
            Err(e) => {
                return Err(e);
            },
        }
        match src.next(Kind::End) {
            Ok(_) => {},
            Err(e) => {
                return Err(e);
            },
        }
        let ghost n4 = Net { up: self.upstream.model(), ..n3 };
        let host: HostSide = match read_ends::<S, U::Model>(src, Ghost(n4)) {
            Ok(h) => h,
            Err(e) => {
                return Err(e);
            },
        };
        self.guest_mac = links.guest_mac;
        self.out = links.out;
        self.tcp = links.tcp;
        self.tcp_index = links.tcp_index;
        self.udp = udp;
        self.udp_index = udp_index;
        self.next_id = counters.next_id;
        self.ip_ident = counters.ip_ident;
        self.stats = counters.stats;
        self.fx.log = counters.log;
        self.host = host;
        assert(self@ =~= Net { host: Ends { conns: host.conns@, next_port: host.next_port }, ..n4 });
        Ok(())
    }
}

/// Every connection is well formed.
pub open spec fn conns_sound(s: Seq<(u64, Conn)>) -> bool {
    forall|i: int| 0 <= i < s.len() ==> (#[trigger] s[i]).1.wf()
}

impl<U: Upstream> Stack<U> {
    /// Whether every connection is well formed, as those of every stack that was
    /// not restored are. A stack goes on after a restore only if they are.
    pub fn is_sound(&self) -> (r: bool)
        ensures
            r == conns_sound(self@.tcp),
    {
        let mut i: usize = 0;
        while i < self.tcp.entries.len()
            invariant
                i <= self.tcp.entries@.len(),
                forall|k: int| 0 <= k < i ==> (#[trigger] self@.tcp[k]).1.wf(),
            decreases self.tcp.entries@.len() - i,
        {
            assert(self@.tcp[i as int].1 == self.tcp.entries@[i as int].1@);
            if !self.tcp.entries[i].1.is_sound() {
                return false;
            }
            i += 1;
        }
        true
    }
}

/// The tables of the stack are in order and can be counted, and every connection
/// stands under its own identifier.
pub open spec fn net_in_order<M>(n: Net<M>) -> bool {
    &&& ordered(n.tcp) && n.tcp.len() <= u64::MAX
    &&& forall|i: int|
        0 <= i < n.tcp.len() ==> (#[trigger] n.tcp[i]).1.t.id == n.tcp[i].0
    &&& flows_ordered(n.tcp_index) && n.tcp_index.len() <= u64::MAX
    &&& ordered(n.udp) && n.udp.len() <= u64::MAX
    &&& flows_ordered(n.udp_index) && n.udp_index.len() <= u64::MAX
    &&& n.log.len() <= u64::MAX
    &&& ordered(n.host.conns) && n.host.conns.len() <= u64::MAX
}

/// A stack that was saved is restored as it was, into any stack with the same
/// configuration whose upstream restores its own fields.
pub proof fn law_stack_comes_back<U: SavedUpstream>(
    n: Net<U::Model>,
    other: Net<U::Model>,
    rest: Seq<Token>,
)
    requires
        net_in_order(n),
        other.config == n.config,
        forall|t: Seq<Token>|
            #[trigger] U::revived(other.up, U::saved(n.up) + t) == Ok::<
                (U::Model, Seq<Token>),
                Fault,
            >((n.up, t)),
    ensures
        net_from::<U>(other, net_tokens(n, U::saved(n.up)) + rest) == Ok::<
            (Net<U::Model>, Seq<Token>),
            Fault,
        >((n, rest)),
{
    let up = U::saved(n.up);
    let ends = ends_tokens(n.host) + rest;
    let tail = seq![Token::End] + ends;
    let mid = seq![Token::Section(UPST)] + (up + tail);
    let s0 = links_tokens(n) + mid;
    assert(net_tokens(n, up) + rest == s0) by {
        let e = seq![Token::End] + ends_tokens(n.host);
        let u = seq![Token::Section(UPST)];
        lemma_join(links_tokens(n), u + (up + e), rest);
        lemma_join(u, up + e, rest);
        lemma_join(up, e, rest);
        lemma_join(seq![Token::End], ends_tokens(n.host), rest);
    }
    let n1 = Net {
        guest_mac: n.guest_mac,
        out: n.out,
        tcp: n.tcp,
        tcp_index: n.tcp_index,
        ..other
    };
    let n2 = Net { udp: n.udp, udp_index: n.udp_index, ..n1 };
    let n3 = Net {
        next_id: n.next_id,
        ip_ident: n.ip_ident,
        stats: n.stats,
        log: n.log,
        ..n2
    };
    let n4 = Net { up: n.up, ..n3 };
    let c = counter_tokens(n.next_id, n.ip_ident, n.stats) + ((seq![
        Token::Count(n.log.len() as u64),
    ] + log_tokens(n.log)) + mid);
    let f = flows_tokens(n) + c;
    assert(s0 == conns_tokens(n) + f) by {
        lemma_links_join(n, mid);
    }
    lemma_conns_come_back(n, other, f);
    lemma_flows_come_back(n, n1, c);
    lemma_counters_come_back(n, n2, mid);
    assert(upstream_from::<U>(n3, mid) == Ok::<(Net<U::Model>, Seq<Token>), Fault>((n4, ends))) by {
        assert(mid.skip(1) =~= up + tail);
        assert(tail.skip(1) =~= ends);
        assert(U::revived(other.up, up + tail) == Ok::<(U::Model, Seq<Token>), Fault>((n.up, tail)));
    }
    lemma_ends_come_back(n, n4, rest);
    assert(Net { host: n.host, ..n4 } =~= n);
}

proof fn lemma_links_join<M>(n: Net<M>, rest: Seq<Token>)
    ensures
        links_tokens(n) + rest == conns_tokens(n) + (flows_tokens(n) + (counter_tokens(
            n.next_id,
            n.ip_ident,
            n.stats,
        ) + ((seq![Token::Count(n.log.len() as u64)] + log_tokens(n.log)) + rest))),
{
    let l = seq![Token::Count(n.log.len() as u64)] + log_tokens(n.log);
    let c = counter_tokens(n.next_id, n.ip_ident, n.stats);
    lemma_join(conns_tokens(n), flows_tokens(n) + (c + l), rest);
    lemma_join(flows_tokens(n), c + l, rest);
    lemma_join(c, l, rest);
}

proof fn lemma_conns_come_back<M>(n: Net<M>, other: Net<M>, rest: Seq<Token>)
    requires
        net_in_order(n),
    ensures
        tcp_from(other, conns_tokens(n) + rest) == Ok::<(Net<M>, Seq<Token>), Fault>(
            (
                Net {
                    guest_mac: n.guest_mac,
                    out: n.out,
                    tcp: n.tcp,
                    tcp_index: n.tcp_index,
                    ..other
                },
                rest,
            ),
        ),
{
    let front = seq![Token::OptMac(n.guest_mac), Token::Frames(n.out)];
    let t = table_tokens(rows_of::<TcpConn>(n.tcp));
    let i = table_tokens(lines_of::<IndexPair>(n.tcp_index));
    let s = conns_tokens(n) + rest;
    lemma_join(front, t + i, rest);
    lemma_join(t, i, rest);
    assert(s.skip(2) =~= t + (i + rest));
    assert(s[0] == front[0] && s[1] == front[1]);
    assert(fits(s, front_kinds()));
    law_saved_table_comes_back::<TcpConn>(n.tcp, i + rest);
    law_saved_list_comes_back::<IndexPair>(n.tcp_index, rest);
    lemma_indexed(n.tcp_index, n.tcp_index.len());
    assert(n.tcp_index.take(n.tcp_index.len() as int) =~= n.tcp_index);
}

proof fn lemma_flows_come_back<M>(n: Net<M>, other: Net<M>, rest: Seq<Token>)
    requires
        net_in_order(n),
    ensures
        udp_from(other, flows_tokens(n) + rest) == Ok::<(Net<M>, Seq<Token>), Fault>(
            (Net { udp: n.udp, udp_index: n.udp_index, ..other }, rest),
        ),
{
    let t = table_tokens(rows_of::<UdpFlow>(n.udp));
    let i = table_tokens(lines_of::<IndexPair>(n.udp_index));
    lemma_join(t, i, rest);
    law_saved_table_comes_back::<UdpFlow>(n.udp, i + rest);
    law_saved_list_comes_back::<IndexPair>(n.udp_index, rest);
    lemma_indexed(n.udp_index, n.udp_index.len());
    assert(n.udp_index.take(n.udp_index.len() as int) =~= n.udp_index);
}

proof fn lemma_counters_come_back<M>(n: Net<M>, other: Net<M>, rest: Seq<Token>)
    requires
        n.log.len() <= u64::MAX,
    ensures
        counters_from(
            other,
            counter_tokens(n.next_id, n.ip_ident, n.stats) + ((seq![
                Token::Count(n.log.len() as u64),
            ] + log_tokens(n.log)) + rest),
        ) == Ok::<(Net<M>, Seq<Token>), Fault>(
            (
                Net {
                    next_id: n.next_id,
                    ip_ident: n.ip_ident,
                    stats: n.stats,
                    log: n.log,
                    ..other
                },
                rest,
            ),
        ),
{
    let row = counter_tokens(n.next_id, n.ip_ident, n.stats);
    let more = (seq![Token::Count(n.log.len() as u64)] + log_tokens(n.log)) + rest;
    let s = row + more;
    law_row_comes_back(row, counter_kinds(), more);
    assert(forall|i: int| 0 <= i < 12 ==> #[trigger] s[i] == row[i]);
    assert(stats_of(s) == n.stats);
    assert(more.skip(1) =~= log_tokens(n.log) + rest);
    assert(more[0] == Token::Count(n.log.len() as u64));
    law_log_comes_back(n.log, rest);
}

proof fn lemma_ends_come_back<M>(n: Net<M>, other: Net<M>, rest: Seq<Token>)
    requires
        ordered(n.host.conns),
        n.host.conns.len() <= u64::MAX,
    ensures
        ends_from(other, ends_tokens(n.host) + rest) == Ok::<(Net<M>, Seq<Token>), Fault>(
            (Net { host: n.host, ..other }, rest),
        ),
{
    let end = seq![Token::End] + rest;
    let t = table_tokens(rows_of::<HostEnd>(n.host.conns)) + end;
    let s = seq![Token::Section(HFWD), Token::U16(n.host.next_port)] + t;
    assert(ends_tokens(n.host) + rest =~= s);
    assert(s.skip(2) =~= t);
    assert(s[0] == Token::Section(HFWD) && s[1] == Token::U16(n.host.next_port));
    law_saved_table_comes_back::<HostEnd>(n.host.conns, end);
    assert(end.skip(1) =~= rest);
    assert(Ends { conns: n.host.conns, next_port: n.host.next_port } =~= n.host);
}

/// A stack with a sinkhole that was saved is restored as it was, into any stack
/// with the same configuration of both.
pub proof fn law_sinkhole_stack_comes_back(n: Net<Hole>, other: Net<Hole>, rest: Seq<Token>)
    requires
        net_in_order(n),
        hole_in_order(n.up),
        other.config == n.config,
        other.up.config == n.up.config,
    ensures
        net_from::<Sinkhole>(other, net_tokens(n, <Sinkhole>::saved(n.up)) + rest) == Ok::<
            (Net<Hole>, Seq<Token>),
            Fault,
        >((n, rest)),
{
    assert forall|t: Seq<Token>|
        #[trigger] <Sinkhole>::revived(other.up, <Sinkhole>::saved(n.up) + t) == Ok::<
            (Hole, Seq<Token>),
            Fault,
        >((n.up, t)) by {
        law_sinkhole_comes_back(n.up, other.up, t);
    }
    law_stack_comes_back::<Sinkhole>(n, other, rest);
}

/// The tables are no longer than a length can say.
pub open spec fn countable<M>(n: Net<M>) -> bool {
    &&& n.tcp.len() <= u64::MAX && n.tcp_index.len() <= u64::MAX
    &&& n.udp.len() <= u64::MAX && n.udp_index.len() <= u64::MAX
    &&& n.log.len() <= u64::MAX
    &&& n.host.conns.len() <= u64::MAX
}

/// A stack that was saved after any run and restored into another with the same
/// configuration is the same stack, whatever its upstream is, if that restores
/// its own fields: everything saved is read, it is saved the same way again, and
/// whatever happens later takes the same frames from both and leaves both with
/// the same events, counters and deadline.
pub proof fn law_restored_stack_goes_on_alike<U: SavedUpstream>(
    ok: spec_fn(U::Model) -> bool,
    start: Net<U::Model>,
    before: Seq<Action>,
    other: Net<U::Model>,
    rest: Seq<Token>,
    later: Seq<Action>,
)
    requires
        kept_by::<U>(ok),
        stack_in_order::<U>(ok, start),
        countable(played::<U>(start, before)),
        other.config == played::<U>(start, before).config,
        ok(played::<U>(start, before).up) ==> forall|t: Seq<Token>|
            #[trigger] U::revived(other.up, U::saved(played::<U>(start, before).up) + t) == Ok::<
                (U::Model, Seq<Token>),
                Fault,
            >((played::<U>(start, before).up, t)),
    ensures
        ({
            let n = played::<U>(start, before);
            let saved = net_tokens(n, U::saved(n.up));
            net_from::<U>(other, saved + rest) matches Ok((r, left)) && {
                &&& r == n
                &&& left == rest
                &&& net_tokens(r, U::saved(r.up)) == saved
                &&& forall|d: Option<VirtualTime>|
                    r.is_next_deadline(d) == #[trigger] n.is_next_deadline(d)
                &&& played::<U>(r, later) == played::<U>(n, later)
                &&& frames_taken::<U>(r, later) == frames_taken::<U>(n, later)
            }
        }),
{
    let n = played::<U>(start, before);
    law_tables_stay_in_order::<U>(ok, start, before);
    assert(conns_in_order(n.tcp));
    law_stack_comes_back::<U>(n, other, rest);
}

/// The sinkhole restores its own fields, so that a stack with one goes on alike.
pub proof fn law_restored_sinkhole_stack_goes_on_alike(
    start: Net<Hole>,
    before: Seq<Action>,
    other: Net<Hole>,
    rest: Seq<Token>,
    later: Seq<Action>,
)
    requires
        stack_in_order::<Sinkhole>(|m: Hole| hole_tables(m), start),
        countable(played::<Sinkhole>(start, before)),
        hole_countable(played::<Sinkhole>(start, before).up),
        other.config == played::<Sinkhole>(start, before).config,
        other.up.config == played::<Sinkhole>(start, before).up.config,
    ensures
        ({
            let n = played::<Sinkhole>(start, before);
            let saved = net_tokens(n, <Sinkhole>::saved(n.up));
            net_from::<Sinkhole>(other, saved + rest) matches Ok((r, left)) && {
                &&& r == n
                &&& left == rest
                &&& played::<Sinkhole>(r, later) == played::<Sinkhole>(n, later)
                &&& frames_taken::<Sinkhole>(r, later) == frames_taken::<Sinkhole>(n, later)
            }
        }),
{
    let n = played::<Sinkhole>(start, before);
    let ok = |m: Hole| hole_tables(m);
    law_sinkhole_keeps_its_tables();
    if ok(n.up) {
        assert forall|t: Seq<Token>|
            #[trigger] <Sinkhole>::revived(other.up, <Sinkhole>::saved(n.up) + t) == Ok::<
                (Hole, Seq<Token>),
                Fault,
            >((n.up, t)) by {
            law_sinkhole_comes_back(n.up, other.up, t);
        }
    }
    law_restored_stack_goes_on_alike::<Sinkhole>(ok, start, before, other, rest, later);
}

/// The tables of the sinkhole are no longer than a length can say.
pub open spec fn hole_countable(m: Hole) -> bool {
    &&& m.tcp.len() <= u64::MAX && m.tcp_runtime.len() <= u64::MAX
    &&& m.udp.len() <= u64::MAX
    &&& m.dns.len() <= u64::MAX
    &&& m.names.len() <= u64::MAX && m.addrs.len() <= u64::MAX
}

} // verus!
