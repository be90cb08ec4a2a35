//! The sinkhole in the saved state of the machine: what it has recorded
//! (connections, bytes of the guest, UDP flows, DNS questions), the answers under
//! way and the fake names already assigned. The configuration is not saved: it is
//! the one with which the sinkhole was built.
use std::collections::VecDeque;
use vstd::prelude::*;
use crate::bytes::{copy_range, queue_of};
use crate::net::addr::{ConnId, Ipv4Addr, VirtualTime};
use crate::net::events::opt_text;
use crate::net::events_saved::{flow_from, flow_of};
use crate::net::names::{assigned, lemma_assign_last, names_ordered, NameTable};
use crate::net::sinkhole::{asked, datagrams, timed, Asked, DnsRecord, Hole, Script, Seen, Sinkhole, Talk, TcpRecord, TcpReply, TcpRuntime, UdpRecord, UdpSeen};
use crate::net::tcp_saved::{number_of_time, time_from, time_number, time_of};
use crate::net::upstream::Upstream;
use crate::rows::{items, law_saved_list_comes_back, law_saved_table_comes_back, lines_of, list_from, restore_list, restore_table, rows_of, save_list, save_table, table_from, Item, Row};
use crate::snapshot::{add_field, append, copy_bytes, copy_opt_text, copy_text, dated_view, table_tokens, tokens, Fault, Field, Kind, Source, Token};
use crate::table::{ordered, Table};

verus! {

impl Row for TcpRecord {
    open spec fn row(k: u64, m: Seen) -> Seq<Token> {
        seq![
            Token::U64(k),
            Token::U64(m.id),
            Token::Ip(m.flow.guest.ip),
            Token::U16(m.flow.guest.port),
            Token::Ip(m.flow.remote.ip),
            Token::U16(m.flow.remote.port),
            Token::OptText(m.hostname),
            Token::Bool(m.refused),
            Token::U64(m.opened_at.0),
            Token::OptTime(time_number(m.closed_at)),
            Token::Bool(m.reset),
            Token::Bool(m.guest_shutdown),
            Token::Bytes(m.from_guest),
            Token::U64(m.to_guest),
        ]
    }

    open spec fn kinds() -> Seq<Kind> {
        seq![
            Kind::U64,
            Kind::U64,
            Kind::Ip,
            Kind::U16,
            Kind::Ip,
            Kind::U16,
            Kind::OptText,
            Kind::Bool,
            Kind::U64,
            Kind::OptTime,
            Kind::Bool,
            Kind::Bool,
            Kind::Bytes,
            Kind::U64,
        ]
    }

    open spec fn of(row: Seq<Token>) -> Result<(u64, Seen), Fault> {
        Ok(
            (
                row[0]->U64_0,
                Seen {
                    id: row[1]->U64_0,
                    flow: flow_of(row, 2),
                    hostname: row[6]->OptText_0,
                    refused: row[7]->Bool_0,
                    opened_at: VirtualTime(row[8]->U64_0),
                    closed_at: time_of(row[9]->OptTime_0),
                    reset: row[10]->Bool_0,
                    guest_shutdown: row[11]->Bool_0,
                    from_guest: row[12]->Bytes_0,
                    to_guest: row[13]->U64_0,
                },
            ),
        )
    }

    open spec fn good(k: u64, m: Seen) -> bool {
        true
    }

    proof fn comes_back(k: u64, m: Seen) {
        let row = Self::row(k, m);
        assert(row[0] == Token::U64(k));
        assert(row[1] == Token::U64(m.id));
        assert(row[2] == Token::Ip(m.flow.guest.ip));
        assert(row[3] == Token::U16(m.flow.guest.port));
        assert(row[4] == Token::Ip(m.flow.remote.ip));
        assert(row[5] == Token::U16(m.flow.remote.port));
        assert(row[6] == Token::OptText(m.hostname));
        assert(row[7] == Token::Bool(m.refused));
        assert(row[8] == Token::U64(m.opened_at.0));
        assert(row[9] == Token::OptTime(time_number(m.closed_at)));
        assert(row[10] == Token::Bool(m.reset));
        assert(row[11] == Token::Bool(m.guest_shutdown));
        assert(row[12] == Token::Bytes(m.from_guest));
        assert(row[13] == Token::U64(m.to_guest));
        assert((Self::of(row)->Ok_0).1 =~= m);
    }

    fn fields(&self, k: u64) -> (r: Vec<Field>) {
        let mut r: Vec<Field> = Vec::new();
        r.push(Field::U64(k));
        r.push(Field::U64(self.id));
        r.push(Field::Ip(self.flow.guest.ip));
        r.push(Field::U16(self.flow.guest.port));
        r.push(Field::Ip(self.flow.remote.ip));
        r.push(Field::U16(self.flow.remote.port));
        r.push(Field::OptText(copy_opt_text(&self.hostname)));
        r.push(Field::Bool(self.refused));
        r.push(Field::U64(self.opened_at.0));
        r.push(Field::OptTime(number_of_time(self.closed_at)));
        r.push(Field::Bool(self.reset));
        r.push(Field::Bool(self.guest_shutdown));
        r.push(Field::Bytes(copy_bytes(&self.from_guest)));
        r.push(Field::U64(self.to_guest));
        assert(tokens(r@) =~= Self::row(k, self@));
        r
    }

    fn kind_list() -> (r: Vec<Kind>) {
        let mut r: Vec<Kind> = Vec::new();
        r.push(Kind::U64);
        r.push(Kind::U64);
        r.push(Kind::Ip);
        r.push(Kind::U16);
        r.push(Kind::Ip);
        r.push(Kind::U16);
        r.push(Kind::OptText);
        r.push(Kind::Bool);
        r.push(Kind::U64);
        r.push(Kind::OptTime);
        r.push(Kind::Bool);
        r.push(Kind::Bool);
        r.push(Kind::Bytes);
        r.push(Kind::U64);
        assert(r@ =~= Self::kinds());
        r
    }

    open spec fn row_bytes() -> u64 {
        40
    }

    fn least() -> (r: u64) {
        40
    }

    fn from_row(row: &Vec<Field>) -> (r: Result<(u64, Self), Fault>) {
        let ghost t = tokens(row@);
        assert(forall|i: int| 0 <= i < row@.len() ==> (#[trigger] row@[i])@ == t[i]);
        assert(t[0].is_kind(Self::kinds()[0]));
        assert(t[1].is_kind(Self::kinds()[1]));
        assert(t[2].is_kind(Self::kinds()[2]));
        assert(t[3].is_kind(Self::kinds()[3]));
        assert(t[4].is_kind(Self::kinds()[4]));
        assert(t[5].is_kind(Self::kinds()[5]));
        assert(t[6].is_kind(Self::kinds()[6]));
        assert(t[7].is_kind(Self::kinds()[7]));
        assert(t[8].is_kind(Self::kinds()[8]));
        assert(t[9].is_kind(Self::kinds()[9]));
        assert(t[10].is_kind(Self::kinds()[10]));
        assert(t[11].is_kind(Self::kinds()[11]));
        assert(t[12].is_kind(Self::kinds()[12]));
        assert(t[13].is_kind(Self::kinds()[13]));
        Ok(
            (
                row[0].u64(),
                TcpRecord {
                    id: row[1].u64(),
                    flow: flow_from(row, 2),
                    hostname: row[6].opt_text(),
                    refused: row[7].bool(),
                    opened_at: VirtualTime(row[8].u64()),
                    closed_at: time_from(row[9].opt_time()),
                    reset: row[10].bool(),
                    guest_shutdown: row[11].bool(),
                    from_guest: row[12].bytes(),
                    to_guest: row[13].u64(),
                },
            ),
        )
    }
}

impl Row for TcpRuntime {
    open spec fn row(k: u64, m: Talk) -> Seq<Token> {
        seq![
            Token::U64(k),
            Token::Bytes(m.reply.on_connect),
            Token::Bytes(m.reply.on_data),
            Token::Bool(m.reply.close_after_reply),
            Token::Octets(m.out),
            Token::Bool(m.replied_to_data),
            Token::Bool(m.eof),
        ]
    }

    open spec fn kinds() -> Seq<Kind> {
        seq![
            Kind::U64,
            Kind::Bytes,
            Kind::Bytes,
            Kind::Bool,
            Kind::Octets,
            Kind::Bool,
            Kind::Bool,
        ]
    }

    open spec fn of(row: Seq<Token>) -> Result<(u64, Talk), Fault> {
        Ok(
            (
                row[0]->U64_0,
                Talk {
                    reply: Script {
                        on_connect: row[1]->Bytes_0,
                        on_data: row[2]->Bytes_0,
                        close_after_reply: row[3]->Bool_0,
                    },
                    out: row[4]->Octets_0,
                    replied_to_data: row[5]->Bool_0,
                    eof: row[6]->Bool_0,
                },
            ),
        )
    }

    open spec fn good(k: u64, m: Talk) -> bool {
        true
    }

    proof fn comes_back(k: u64, m: Talk) {
        let row = Self::row(k, m);
        assert(row[0] == Token::U64(k));
        assert(row[1] == Token::Bytes(m.reply.on_connect));
        assert(row[2] == Token::Bytes(m.reply.on_data));
        assert(row[3] == Token::Bool(m.reply.close_after_reply));
        assert(row[4] == Token::Octets(m.out));
        assert(row[5] == Token::Bool(m.replied_to_data));
        assert(row[6] == Token::Bool(m.eof));
        assert((Self::of(row)->Ok_0).1 =~= m);
    }

    fn fields(&self, k: u64) -> (r: Vec<Field>) {
        let out: Vec<u8> = copy_range(&self.out, 0, self.out.len());
        assert(out@ =~= self@.out);
        let mut r: Vec<Field> = Vec::new();
        r.push(Field::U64(k));
        r.push(Field::Bytes(copy_bytes(&self.reply.on_connect)));
        r.push(Field::Bytes(copy_bytes(&self.reply.on_data)));
        r.push(Field::Bool(self.reply.close_after_reply));
        r.push(Field::Octets(out));
        r.push(Field::Bool(self.replied_to_data));
        r.push(Field::Bool(self.eof));
        assert(tokens(r@) =~= Self::row(k, self@));
        r
    }

    fn kind_list() -> (r: Vec<Kind>) {
        let mut r: Vec<Kind> = Vec::new();
        r.push(Kind::U64);
        r.push(Kind::Bytes);
        r.push(Kind::Bytes);
        r.push(Kind::Bool);
        r.push(Kind::Octets);
        r.push(Kind::Bool);
        r.push(Kind::Bool);
        assert(r@ =~= Self::kinds());
        r
    }

    open spec fn row_bytes() -> u64 {
        26
    }

    fn least() -> (r: u64) {
        26
    }

    fn from_row(row: &Vec<Field>) -> (r: Result<(u64, Self), Fault>) {
        let ghost t = tokens(row@);
        assert(forall|i: int| 0 <= i < row@.len() ==> (#[trigger] row@[i])@ == t[i]);
        assert(t[0].is_kind(Self::kinds()[0]));
        assert(t[1].is_kind(Self::kinds()[1]));
        assert(t[2].is_kind(Self::kinds()[2]));
        assert(t[3].is_kind(Self::kinds()[3]));
        assert(t[4].is_kind(Self::kinds()[4]));
        assert(t[5].is_kind(Self::kinds()[5]));
        assert(t[6].is_kind(Self::kinds()[6]));
        let out: Vec<u8> = row[4].octets();
        Ok(
            (
                row[0].u64(),
                TcpRuntime {
                    reply: TcpReply {
                        on_connect: row[1].bytes(),
                        on_data: row[2].bytes(),
                        close_after_reply: row[3].bool(),
                    },
                    out: queue_of(out.as_slice()),
                    replied_to_data: row[5].bool(),
                    eof: row[6].bool(),
                },
            ),
        )
    }
}

/// Datagrams with their instants as numbers.
pub open spec fn stamped(s: Seq<(VirtualTime, Seq<u8>)>) -> Seq<(u64, Seq<u8>)> {
    s.map_values(|d: (VirtualTime, Seq<u8>)| (d.0.0, d.1))
}

/// Datagrams with their instants.
pub open spec fn unstamped(s: Seq<(u64, Seq<u8>)>) -> Seq<(VirtualTime, Seq<u8>)> {
    s.map_values(|d: (u64, Seq<u8>)| (VirtualTime(d.0), d.1))
}

fn stamp(v: &Vec<(VirtualTime, Vec<u8>)>) -> (r: Vec<(u64, Vec<u8>)>)
    ensures
        dated_view(r@) == stamped(timed(v@)),
{
    let mut r: Vec<(u64, Vec<u8>)> = Vec::new();
    let ghost all = stamped(timed(v@));
    let mut i: usize = 0;
    while i < v.len()
        invariant
            i <= v@.len(),
            all == stamped(timed(v@)),
            r@.len() == i,
            dated_view(r@) == all.take(i as int),
        decreases v@.len() - i,
    {
        r.push((v[i].0.0, copy_bytes(&v[i].1)));
        i += 1;
        assert(dated_view(r@) =~= all.take(i as int));
    }
    assert(dated_view(r@) =~= all);
    r
}

fn unstamp(v: &Vec<(u64, Vec<u8>)>) -> (r: Vec<(VirtualTime, Vec<u8>)>)
    ensures
        timed(r@) == unstamped(dated_view(v@)),
{
    let mut r: Vec<(VirtualTime, Vec<u8>)> = Vec::new();
    let ghost all = unstamped(dated_view(v@));
    let mut i: usize = 0;
    while i < v.len()
        invariant
            i <= v@.len(),
            all == unstamped(dated_view(v@)),
            r@.len() == i,
            timed(r@) == all.take(i as int),
        decreases v@.len() - i,
    {
        r.push((VirtualTime(v[i].0), copy_bytes(&v[i].1)));
        i += 1;
        assert(timed(r@) =~= all.take(i as int));
    }
    assert(timed(r@) =~= all);
    r
}

impl Row for UdpRecord {
    open spec fn row(k: u64, m: UdpSeen) -> Seq<Token> {
        seq![
            Token::U64(k),
            Token::U64(m.id),
            Token::Ip(m.flow.guest.ip),
            Token::U16(m.flow.guest.port),
            Token::Ip(m.flow.remote.ip),
            Token::U16(m.flow.remote.port),
            Token::OptText(m.hostname),
            Token::Dated(stamped(m.datagrams)),
            Token::OptTime(time_number(m.closed_at)),
        ]
    }

    open spec fn kinds() -> Seq<Kind> {
        seq![
            Kind::U64,
            Kind::U64,
            Kind::Ip,
            Kind::U16,
            Kind::Ip,
            Kind::U16,
            Kind::OptText,
            Kind::Dated,
            Kind::OptTime,
        ]
    }

    open spec fn of(row: Seq<Token>) -> Result<(u64, UdpSeen), Fault> {
        Ok(
            (
                row[0]->U64_0,
                UdpSeen {
                    id: row[1]->U64_0,
                    flow: flow_of(row, 2),
                    hostname: row[6]->OptText_0,
                    datagrams: unstamped(row[7]->Dated_0),
                    closed_at: time_of(row[8]->OptTime_0),
                },
            ),
        )
    }

    open spec fn good(k: u64, m: UdpSeen) -> bool {
        true
    }

    proof fn comes_back(k: u64, m: UdpSeen) {
        let row = Self::row(k, m);
        assert(row[0] == Token::U64(k));
        assert(row[1] == Token::U64(m.id));
        assert(row[2] == Token::Ip(m.flow.guest.ip));
        assert(row[3] == Token::U16(m.flow.guest.port));
        assert(row[4] == Token::Ip(m.flow.remote.ip));
        assert(row[5] == Token::U16(m.flow.remote.port));
        assert(row[6] == Token::OptText(m.hostname));
        assert(row[7] == Token::Dated(stamped(m.datagrams)));
        assert(row[8] == Token::OptTime(time_number(m.closed_at)));
        assert(unstamped(stamped(m.datagrams)) =~= m.datagrams);
        assert((Self::of(row)->Ok_0).1 =~= m);
    }

    fn fields(&self, k: u64) -> (r: Vec<Field>) {
        let mut r: Vec<Field> = Vec::new();
        r.push(Field::U64(k));
        r.push(Field::U64(self.id));
        r.push(Field::Ip(self.flow.guest.ip));
        r.push(Field::U16(self.flow.guest.port));
        r.push(Field::Ip(self.flow.remote.ip));
        r.push(Field::U16(self.flow.remote.port));
        r.push(Field::OptText(copy_opt_text(&self.hostname)));
        r.push(Field::Dated(stamp(&self.datagrams)));
        r.push(Field::OptTime(number_of_time(self.closed_at)));
        assert(tokens(r@) =~= Self::row(k, self@));
        r
    }

    fn kind_list() -> (r: Vec<Kind>) {
        let mut r: Vec<Kind> = Vec::new();
        r.push(Kind::U64);
        r.push(Kind::U64);
        r.push(Kind::Ip);
        r.push(Kind::U16);
        r.push(Kind::Ip);
        r.push(Kind::U16);
        r.push(Kind::OptText);
        r.push(Kind::Dated);
        r.push(Kind::OptTime);
        assert(r@ =~= Self::kinds());
        r
    }

    open spec fn row_bytes() -> u64 {
        30
    }

    fn least() -> (r: u64) {
        30
    }

    fn from_row(row: &Vec<Field>) -> (r: Result<(u64, Self), Fault>) {
        let ghost t = tokens(row@);
        assert(forall|i: int| 0 <= i < row@.len() ==> (#[trigger] row@[i])@ == t[i]);
        assert(t[0].is_kind(Self::kinds()[0]));
        assert(t[1].is_kind(Self::kinds()[1]));
        assert(t[2].is_kind(Self::kinds()[2]));
        assert(t[3].is_kind(Self::kinds()[3]));
        assert(t[4].is_kind(Self::kinds()[4]));
        assert(t[5].is_kind(Self::kinds()[5]));
        assert(t[6].is_kind(Self::kinds()[6]));
        assert(t[7].is_kind(Self::kinds()[7]));
        assert(t[8].is_kind(Self::kinds()[8]));
        let dated: Vec<(u64, Vec<u8>)> = row[7].dated();
        Ok(
            (
                row[0].u64(),
                UdpRecord {
                    id: row[1].u64(),
                    flow: flow_from(row, 2),
                    hostname: row[6].opt_text(),
                    datagrams: unstamp(&dated),
                    closed_at: time_from(row[8].opt_time()),
                },
            ),
        )
    }
}

impl Row for String {
    open spec fn row(k: u64, m: Seq<char>) -> Seq<Token> {
        seq![
            Token::Ip((Ipv4Addr { bits: k as u32 })),
            Token::Text(m),
        ]
    }

    open spec fn kinds() -> Seq<Kind> {
        seq![
            Kind::Ip,
            Kind::Text,
        ]
    }

    open spec fn of(row: Seq<Token>) -> Result<(u64, Seq<char>), Fault> {
        Ok(((row[0]->Ip_0).bits as u64, row[1]->Text_0))
    }

    open spec fn good(k: u64, m: Seq<char>) -> bool {
        k <= u32::MAX
    }

    proof fn comes_back(k: u64, m: Seq<char>) {
        let row = Self::row(k, m);
        assert(row[0] == Token::Ip((Ipv4Addr { bits: k as u32 })));
        assert(row[1] == Token::Text(m));
        assert((Self::of(row)->Ok_0).1 =~= m);
    }

    fn fields(&self, k: u64) -> (r: Vec<Field>) {
        let mut r: Vec<Field> = Vec::new();
        r.push(Field::Ip(Ipv4Addr { bits: k as u32 }));
        r.push(Field::Text(copy_text(self)));
        assert(tokens(r@) =~= Self::row(k, self@));
        r
    }

    fn kind_list() -> (r: Vec<Kind>) {
        let mut r: Vec<Kind> = Vec::new();
        r.push(Kind::Ip);
        r.push(Kind::Text);
        assert(r@ =~= Self::kinds());
        r
    }

    open spec fn row_bytes() -> u64 {
        12
    }

    fn least() -> (r: u64) {
        12
    }

    fn from_row(row: &Vec<Field>) -> (r: Result<(u64, Self), Fault>) {
        let ghost t = tokens(row@);
        assert(forall|i: int| 0 <= i < row@.len() ==> (#[trigger] row@[i])@ == t[i]);
        assert(t[0].is_kind(Self::kinds()[0]));
        assert(t[1].is_kind(Self::kinds()[1]));
        Ok((row[0].ip().bits as u64, row[1].text()))
    }
}

impl Item for DnsRecord {
    open spec fn line(m: Asked) -> Seq<Token> {
        seq![
            Token::U64(m.at.0),
            Token::Text(m.name),
            Token::U16(m.qtype),
            Token::OptIp(m.answer),
        ]
    }

    open spec fn line_kinds() -> Seq<Kind> {
        seq![
            Kind::U64,
            Kind::Text,
            Kind::U16,
            Kind::OptIp,
        ]
    }

    open spec fn item_of(row: Seq<Token>) -> Result<Asked, Fault> {
        Ok(
            Asked {
                at: VirtualTime(row[0]->U64_0),
                name: row[1]->Text_0,
                qtype: row[2]->U16_0,
                answer: row[3]->OptIp_0,
            },
        )
    }

    proof fn line_comes_back(m: Asked) {
        let row = Self::line(m);
        assert(row[0] == Token::U64(m.at.0));
        assert(row[1] == Token::Text(m.name));
        assert(row[2] == Token::U16(m.qtype));
        assert(row[3] == Token::OptIp(m.answer));
        assert(Self::item_of(row)->Ok_0 =~= m);
    }

    fn line_fields(&self) -> (r: Vec<Field>) {
        let mut r: Vec<Field> = Vec::new();
        r.push(Field::U64(self.at.0));
        r.push(Field::Text(copy_text(&self.name)));
        r.push(Field::U16(self.qtype));
        r.push(Field::OptIp(self.answer));
        assert(tokens(r@) =~= Self::line(self@));
        r
    }

    fn line_kind_list() -> (r: Vec<Kind>) {
        let mut r: Vec<Kind> = Vec::new();
        r.push(Kind::U64);
        r.push(Kind::Text);
        r.push(Kind::U16);
        r.push(Kind::OptIp);
        assert(r@ =~= Self::line_kinds());
        r
    }

    open spec fn line_bytes() -> u64 {
        19
    }

    fn least_line() -> (r: u64) {
        19
    }

    fn from_line(row: &Vec<Field>) -> (r: Result<Self, Fault>) {
        let ghost t = tokens(row@);
        assert(forall|i: int| 0 <= i < row@.len() ==> (#[trigger] row@[i])@ == t[i]);
        assert(t[0].is_kind(Self::line_kinds()[0]));
        assert(t[1].is_kind(Self::line_kinds()[1]));
        assert(t[2].is_kind(Self::line_kinds()[2]));
        assert(t[3].is_kind(Self::line_kinds()[3]));
        Ok(
            DnsRecord {
                at: VirtualTime(row[0].u64()),
                name: row[1].text(),
                qtype: row[2].u16(),
                answer: row[3].opt_ip(),
            },
        )
    }
}

/// A name and its address.
pub struct NamePair {
    pub name: String,
    pub addr: Ipv4Addr,
}

impl View for NamePair {
    type V = (Seq<char>, Ipv4Addr);

    open spec fn view(&self) -> (Seq<char>, Ipv4Addr) {
        (self.name@, self.addr)
    }
}

impl Item for NamePair {
    open spec fn line(m: (Seq<char>, Ipv4Addr)) -> Seq<Token> {
        seq![
            Token::Text(m.0),
            Token::Ip(m.1),
        ]
    }

    open spec fn line_kinds() -> Seq<Kind> {
        seq![
            Kind::Text,
            Kind::Ip,
        ]
    }

    open spec fn item_of(row: Seq<Token>) -> Result<(Seq<char>, Ipv4Addr), Fault> {
        Ok((row[0]->Text_0, row[1]->Ip_0))
    }

    proof fn line_comes_back(m: (Seq<char>, Ipv4Addr)) {
        let row = Self::line(m);
        assert(row[0] == Token::Text(m.0));
        assert(row[1] == Token::Ip(m.1));
        assert(Self::item_of(row)->Ok_0 =~= m);
    }

    fn line_fields(&self) -> (r: Vec<Field>) {
        let mut r: Vec<Field> = Vec::new();
        r.push(Field::Text(copy_text(&self.name)));
        r.push(Field::Ip(self.addr));
        assert(tokens(r@) =~= Self::line(self@));
        r
    }

    fn line_kind_list() -> (r: Vec<Kind>) {
        let mut r: Vec<Kind> = Vec::new();
        r.push(Kind::Text);
        r.push(Kind::Ip);
        assert(r@ =~= Self::line_kinds());
        r
    }

    open spec fn line_bytes() -> u64 {
        12
    }

    fn least_line() -> (r: u64) {
        12
    }

    fn from_line(row: &Vec<Field>) -> (r: Result<Self, Fault>) {
        let ghost t = tokens(row@);
        assert(forall|i: int| 0 <= i < row@.len() ==> (#[trigger] row@[i])@ == t[i]);
        assert(t[0].is_kind(Self::line_kinds()[0]));
        assert(t[1].is_kind(Self::line_kinds()[1]));
        Ok(NamePair { name: row[0].text(), addr: row[1].ip() })
    }
}

/// The names of the first `n` pairs.
pub open spec fn assigned_all(s: Seq<(Seq<char>, Ipv4Addr)>, n: nat) -> Seq<(Seq<char>, Ipv4Addr)>
    decreases n,
{
    if n == 0 {
        Seq::empty()
    } else {
        assigned(assigned_all(s, (n - 1) as nat), s[n - 1].0, s[n - 1].1)
    }
}

fn save_names(t: &NameTable) -> (r: Vec<Field>)
    ensures
        tokens(r@) == table_tokens(lines_of::<NamePair>(t@)),
{
    let mut v: Vec<NamePair> = Vec::new();
    let mut i: usize = 0;
    assert(items(v@) =~= t@.take(0));
    while i < t.entries.len()
        invariant
            i <= t.entries@.len(),
            v@.len() == i,
            items(v@) == t@.take(i as int),
        decreases t.entries@.len() - i,
    {
        v.push(NamePair { name: copy_text(&t.entries[i].0), addr: t.entries[i].1 });
        i += 1;
        assert(items(v@) =~= t@.take(i as int));
    }
    assert(items(v@) =~= t@);
    save_list(&v)
}

fn names_from(v: &Vec<NamePair>) -> (r: NameTable)
    ensures
        r@ == assigned_all(items(v@), v@.len()),
{
    let mut t: NameTable = NameTable::new();
    let mut i: usize = 0;
    while i < v.len()
        invariant
            i <= v@.len(),
            t@ == assigned_all(items(v@), i as nat),
        decreases v@.len() - i,
    {
        assert(items(v@)[i as int] == v@[i as int]@);
        t.insert(copy_text(&v[i].name), v[i].addr);
        i += 1;
    }
    t
}

proof fn lemma_assigned_all(s: Seq<(Seq<char>, Ipv4Addr)>, n: nat)
    requires
        names_ordered(s),
        n <= s.len(),
    ensures
        assigned_all(s, n) == s.take(n as int),
    decreases n,
{
    if n == 0 {
        assert(s.take(0) =~= Seq::empty());
    } else {
        lemma_assigned_all(s, (n - 1) as nat);
        lemma_assign_last(s, n - 1);
    }
}

/// An upstream whose state can be saved.
pub trait SavedUpstream: Upstream {
    /// The saved state.
    spec fn saved(m: Self::Model) -> Seq<Token>;

    /// The state after a restoration from the fields, and what is left of them.
    spec fn revived(m: Self::Model, s: Seq<Token>) -> Result<(Self::Model, Seq<Token>), Fault>;

    fn save(&self) -> (r: Vec<Field>)
        ensures
            tokens(r@) == Self::saved(self.model()),
    ;

    fn restore<S: Source>(&mut self, src: &mut S) -> (r: Result<(), Fault>)
        ensures
            match r {
                Ok(_) => Self::revived(old(self).model(), old(src).rest()) == Ok::<
                    (Self::Model, Seq<Token>),
                    Fault,
                >((final(self).model(), final(src).rest())),
                Err(e) => {
                    &&& Self::revived(old(self).model(), old(src).rest()) == Err::<
                        (Self::Model, Seq<Token>),
                        Fault,
                    >(e)
                    &&& final(self).model() == old(self).model()
                },
            },
    ;
}

/// A saved sinkhole.
pub open spec fn hole_tokens(m: Hole) -> Seq<Token> {
    table_tokens(rows_of::<TcpRecord>(m.tcp)) + (table_tokens(rows_of::<TcpRuntime>(m.tcp_runtime)) + (
    table_tokens(rows_of::<UdpRecord>(m.udp)) + (seq![Token::Dated(m.udp_out)] + (table_tokens(
        lines_of::<DnsRecord>(m.dns),
    ) + (table_tokens(lines_of::<NamePair>(m.names)) + table_tokens(rows_of::<String>(m.addrs)))))))
}

/// The sinkhole restored: each piece is read after the one before it.
pub open spec fn hole_from(m: Hole, s: Seq<Token>) -> Result<(Hole, Seq<Token>), Fault> {
    match table_from::<TcpRecord>(s) {
        Err(e) => Err(e),
        Ok((tcp, s)) => match table_from::<TcpRuntime>(s) {
            Err(e) => Err(e),
            Ok((tcp_runtime, s)) => match table_from::<UdpRecord>(s) {
                Err(e) => Err(e),
                Ok((udp, s)) => if s.len() == 0 || !(s[0] is Dated) {
                    Err(Fault::Missing)
                } else {
                    hole_names_from(
                        Hole { tcp, tcp_runtime, udp, udp_out: s[0]->Dated_0, ..m },
                        s.skip(1),
                    )
                },
            },
        },
    }
}

/// The second half of a restored sinkhole: the questions and the names.
pub open spec fn hole_names_from(m: Hole, s: Seq<Token>) -> Result<(Hole, Seq<Token>), Fault> {
    match list_from::<DnsRecord>(s) {
        Err(e) => Err(e),
        Ok((dns, s)) => match list_from::<NamePair>(s) {
            Err(e) => Err(e),
            Ok((pairs, s)) => match table_from::<String>(s) {
                Err(e) => Err(e),
                Ok((addrs, s)) => Ok(
                    (Hole { dns, names: assigned_all(pairs, pairs.len()), addrs, ..m }, s),
                ),
            },
        },
    }
}

fn queue_datagrams(v: Vec<(u64, Vec<u8>)>) -> (r: VecDeque<(ConnId, Vec<u8>)>)
    ensures
        datagrams(r@) == dated_view(v@),
{
    let mut q: VecDeque<(ConnId, Vec<u8>)> = VecDeque::new();
    let mut i: usize = 0;
    assert(datagrams(q@) =~= dated_view(v@).take(0));
    while i < v.len()
        invariant
            i <= v@.len(),
            q@.len() == i,
            datagrams(q@) == dated_view(v@).take(i as int),
        decreases v@.len() - i,
    {
        q.push_back((v[i].0, copy_bytes(&v[i].1)));
        i += 1;
        assert(datagrams(q@) =~= dated_view(v@).take(i as int));
    }
    assert(datagrams(q@) =~= dated_view(v@));
    q
}

fn list_datagrams(q: &VecDeque<(ConnId, Vec<u8>)>) -> (r: Vec<(u64, Vec<u8>)>)
    ensures
        dated_view(r@) == datagrams(q@),
{
    let mut r: Vec<(u64, Vec<u8>)> = Vec::new();
    let mut i: usize = 0;
    assert(dated_view(r@) =~= datagrams(q@).take(0));
    while i < q.len()
        invariant
            i <= q@.len(),
            r@.len() == i,
            dated_view(r@) == datagrams(q@).take(i as int),
        decreases q@.len() - i,
    {
        r.push((q[i].0, copy_bytes(&q[i].1)));
        i += 1;
        assert(dated_view(r@) =~= datagrams(q@).take(i as int));
    }
    assert(dated_view(r@) =~= datagrams(q@));
    r
}

impl SavedUpstream for Sinkhole {
    open spec fn saved(m: Hole) -> Seq<Token> {
        hole_tokens(m)
    }

    open spec fn revived(m: Hole, s: Seq<Token>) -> Result<(Hole, Seq<Token>), Fault> {
        hole_from(m, s)
    }

    fn save(&self) -> (r: Vec<Field>) {
        let mut r: Vec<Field> = save_table(&self.tcp);
        append(&mut r, save_table(&self.tcp_runtime));
        append(&mut r, save_table(&self.udp));
        add_field(&mut r, Field::Dated(list_datagrams(&self.udp_out)));
        append(&mut r, save_list(&self.dns));
        append(&mut r, save_names(&self.names));
        append(&mut r, save_table(&self.addrs));
        assert(items(self.dns@) =~= asked(self.dns@));
        assert(tokens(r@) =~= hole_tokens(self.model()));
        r
    }

    fn restore<S: Source>(&mut self, src: &mut S) -> (r: Result<(), Fault>) {
        let ghost m = self.model();
        let tcp: Table<TcpRecord> = match restore_table(src) {
            Ok(t) => t,
            Err(e) => {
                return Err(e);
            },
        };
        let tcp_runtime: Table<TcpRuntime> = match restore_table(src) {
            Ok(t) => t,
            Err(e) => {
                return Err(e);
            },
        };
        let udp: Table<UdpRecord> = match restore_table(src) {
            Ok(t) => t,
            Err(e) => {
                return Err(e);
            },
        };
        let ghost s = src.rest();
        let waiting: Vec<(u64, Vec<u8>)> = match src.next(Kind::Dated) {
            Ok(f) => f.dated(),
            Err(e) => {
                return Err(e);
            },
        };
        let ghost half = Hole {
            tcp: tcp@,
            tcp_runtime: tcp_runtime@,
            udp: udp@,
            udp_out: dated_view(waiting@),
            ..m
        };
        assert(hole_from(m, old(src).rest()) == hole_names_from(half, src.rest()));
        let dns: Vec<DnsRecord> = match restore_list(src) {
            Ok(v) => v,
            Err(e) => {
                return Err(e);
            },
        };
        let pairs: Vec<NamePair> = match restore_list(src) {
            Ok(v) => v,
            Err(e) => {
                return Err(e);
            },
        };
        let addrs: Table<String> = match restore_table(src) {
            Ok(t) => t,
            Err(e) => {
                return Err(e);
            },
        };
        assert(items(dns@) =~= asked(dns@));
        self.tcp = tcp;
        self.tcp_runtime = tcp_runtime;
        self.udp = udp;
        self.udp_out = queue_datagrams(waiting);
        self.dns = dns;
        self.names = names_from(&pairs);
        self.addrs = addrs;
        Ok(())
    }
}

/// The tables of the sinkhole are in order and can be counted.
pub open spec fn hole_in_order(m: Hole) -> bool {
    &&& ordered(m.tcp) && m.tcp.len() <= u64::MAX
    &&& ordered(m.tcp_runtime) && m.tcp_runtime.len() <= u64::MAX
    &&& ordered(m.udp) && m.udp.len() <= u64::MAX
    &&& m.dns.len() <= u64::MAX
    &&& names_ordered(m.names) && m.names.len() <= u64::MAX
    &&& ordered(m.addrs) && m.addrs.len() <= u64::MAX
    &&& forall|i: int| 0 <= i < m.addrs.len() ==> (#[trigger] m.addrs[i]).0 <= u32::MAX
}

/// A sinkhole that was saved is restored as it was, into any sinkhole with the
/// same configuration.
pub proof fn law_sinkhole_comes_back(m: Hole, other: Hole, rest: Seq<Token>)
    requires
        hole_in_order(m),
        other.config == m.config,
    ensures
        hole_from(other, hole_tokens(m) + rest) == Ok::<(Hole, Seq<Token>), Fault>((m, rest)),
{
    let s6 = table_tokens(rows_of::<String>(m.addrs)) + rest;
    let s5 = table_tokens(lines_of::<NamePair>(m.names)) + s6;
    let s4 = table_tokens(lines_of::<DnsRecord>(m.dns)) + s5;
    let s3 = seq![Token::Dated(m.udp_out)] + s4;
    let s2 = table_tokens(rows_of::<UdpRecord>(m.udp)) + s3;
    let s1 = table_tokens(rows_of::<TcpRuntime>(m.tcp_runtime)) + s2;
    let s0 = table_tokens(rows_of::<TcpRecord>(m.tcp)) + s1;
    assert(hole_tokens(m) + rest =~= s0);
    assert(s3.skip(1) =~= s4);
    law_saved_table_comes_back::<TcpRecord>(m.tcp, s1);
    law_saved_table_comes_back::<TcpRuntime>(m.tcp_runtime, s2);
    law_saved_table_comes_back::<UdpRecord>(m.udp, s3);
    law_saved_list_comes_back::<DnsRecord>(m.dns, s5);
    law_saved_list_comes_back::<NamePair>(m.names, s6);
    law_saved_table_comes_back::<String>(m.addrs, rest);
    lemma_assigned_all(m.names, m.names.len());
    assert(m.names.take(m.names.len() as int) =~= m.names);
}

} // verus!
