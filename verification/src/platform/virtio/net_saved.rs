//! The network device in the saved state of the machine.
use std::collections::VecDeque;
use vstd::prelude::*;
use crate::bytes::same_bytes;
use crate::platform::virtio::disk_saved::{flag, flag_of};
use crate::platform::virtio::net::{NetBackend, Nic, QueueNet, VirtioNet, Frames};
use crate::snapshot::{append, copy_bytes, copy_frames, fits, frames_view, law_row_comes_back, lemma_join, read_row, tokens, Fault, Field, Kind, Source, Subject, Token};

verus! {

/// A network that can be saved.
pub trait SavedNet: NetBackend {
    /// The saved state.
    spec fn saved(m: Self::Model) -> Seq<Token>;

    /// The network after a restoration from the fields, and what is left of them.
    spec fn revived(m: Self::Model, s: Seq<Token>) -> Result<(Self::Model, Seq<Token>), Fault>;

    fn save_state(&self) -> (r: Vec<Field>)
        ensures
            tokens(r@) == Self::saved(self.model()),
    ;

    fn restore_state<S: Source>(&mut self, src: &mut S) -> (r: Result<(), Fault>)
        ensures
            match r {
                Ok(_) => Self::revived(old(self).model(), old(src).rest()) == Ok::<
                    (Self::Model, Seq<Token>),
                    Fault,
                >((final(self).model(), final(src).rest())),
                Err(e) => {
                    &&& Self::revived(old(self).model(), old(src).rest()) == Err::<
                        (Self::Model, Seq<Token>),
                        Fault,
                    >(e)
                    &&& final(self).model() == old(self).model()
                },
            },
    ;
}

pub open spec fn wire_kinds() -> Seq<Kind> {
    seq![Kind::Frames, Kind::Frames]
}

fn list_frames(q: &VecDeque<Vec<u8>>) -> (r: Vec<Vec<u8>>)
    ensures
        frames_view(r@) == frames_view(q@),
{
    let mut r: Vec<Vec<u8>> = Vec::new();
    let mut i: usize = 0;
    while i < q.len()
        invariant
            i <= q@.len(),
            r@.len() == i,
            frames_view(r@) == frames_view(q@).take(i as int),
        decreases q@.len() - i,
    {
        r.push(copy_bytes(&q[i]));
        i += 1;
        assert(frames_view(r@) =~= frames_view(q@).take(i as int));
    }
    assert(frames_view(r@) =~= frames_view(q@));
    r
}

fn queue_frames(v: &Vec<Vec<u8>>) -> (r: VecDeque<Vec<u8>>)
    ensures
        frames_view(r@) == frames_view(v@),
{
    let mut r: VecDeque<Vec<u8>> = VecDeque::new();
    let mut i: usize = 0;
    while i < v.len()
        invariant
            i <= v@.len(),
            r@.len() == i,
            frames_view(r@) == frames_view(v@).take(i as int),
        decreases v@.len() - i,
    {
        r.push_back(copy_bytes(&v[i]));
        i += 1;
        assert(frames_view(r@) =~= frames_view(v@).take(i as int));
    }
    assert(frames_view(r@) =~= frames_view(v@));
    r
}

impl SavedNet for QueueNet {
    open spec fn saved(m: Frames) -> Seq<Token> {
        seq![Token::Frames(m.rx), Token::Frames(m.tx)]
    }

    open spec fn revived(m: Frames, s: Seq<Token>) -> Result<(Frames, Seq<Token>), Fault> {
        if !fits(s, wire_kinds()) {
            Err(Fault::Missing)
        } else {
            Ok((Frames { rx: s[0]->Frames_0, tx: s[1]->Frames_0 }, s.skip(2)))
        }
    }

    fn save_state(&self) -> (r: Vec<Field>) {
        let mut r: Vec<Field> = Vec::new();
        r.push(Field::Frames(list_frames(&self.rx)));
        r.push(Field::Frames(copy_frames(&self.tx)));
        assert(tokens(r@) =~= Self::saved(self.model()));
        r
    }

    fn restore_state<S: Source>(&mut self, src: &mut S) -> (r: Result<(), Fault>) {
        let ghost s = src.rest();
        let mut kinds: Vec<Kind> = Vec::new();
        kinds.push(Kind::Frames);
        kinds.push(Kind::Frames);
        assert(kinds@ =~= wire_kinds());
        let row: Vec<Field> = match read_row(src, kinds.as_slice()) {
            Ok(row) => row,
            Err(e) => {
                return Err(e);
            },
        };
        assert(s[0].is_kind(wire_kinds()[0]));
        assert(s[1].is_kind(wire_kinds()[1]));
        self.rx = queue_frames(&row[0].frames());
        self.tx = row[1].frames();
        assert(self.model() =~= (Frames { rx: s[0]->Frames_0, tx: s[1]->Frames_0 }));
        Ok(())
    }
}

/// Frames in memory that were saved are restored as they were.
pub proof fn law_queues_come_back(m: Frames, n: Frames, rest: Seq<Token>)
    ensures
        QueueNet::revived(n, QueueNet::saved(m) + rest) == Ok::<(Frames, Seq<Token>), Fault>(
            (m, rest),
        ),
{
    let row = QueueNet::saved(m);
    assert(row[0] == Token::Frames(m.rx));
    assert(row[1] == Token::Frames(m.tx));
    law_row_comes_back(row, wire_kinds(), rest);
}

pub open spec fn nic_kinds() -> Seq<Kind> {
    seq![
        Kind::Raw(6),
        Kind::U64,
        Kind::Bool,
        Kind::Bool,
        Kind::Bool,
        Kind::OptBytes,
        Kind::U64,
    ]
}

fn nic_kinds_list() -> (r: Vec<Kind>)
    ensures
        r@ == nic_kinds(),
{
    let mut r: Vec<Kind> = Vec::new();
    r.push(Kind::Raw(6));
    r.push(Kind::U64);
    r.push(Kind::Bool);
    r.push(Kind::Bool);
    r.push(Kind::Bool);
    r.push(Kind::OptBytes);
    r.push(Kind::U64);
    assert(r@ =~= nic_kinds());
    r
}

/// What of the device is saved before its network.
pub open spec fn nic_row<M>(s: Nic<M>) -> Seq<Token> {
    seq![
        Token::Raw(s.mac),
        Token::U64(flag(s.offer_mrg)),
        Token::Bool(s.link_up),
        Token::Bool(s.link_changed),
        Token::Bool(s.mrg),
        Token::OptBytes(s.pending_rx),
        Token::U64(s.rx_dropped),
    ]
}

/// The saved device, then its network.
pub open spec fn nic_tokens<N: SavedNet>(s: Nic<N::Model>) -> Seq<Token> {
    nic_row(s) + N::saved(s.net)
}

/// The device restored. MAC and offer are configuration.
pub open spec fn nic_from<N: SavedNet>(s: Nic<N::Model>, t: Seq<Token>) -> Result<
    (Nic<N::Model>, Seq<Token>),
    Fault,
> {
    if !fits(t, nic_kinds()) {
        Err(Fault::Missing)
    } else if t[0]->Raw_0 != s.mac {
        Err(Fault::Differs(Subject::NetMac))
    } else if t[1]->U64_0 != flag(s.offer_mrg) {
        Err(Fault::Differs(Subject::MergeOffer))
    } else {
        match N::revived(s.net, t.skip(7)) {
            Err(e) => Err(e),
            Ok((net, rest)) => Ok(
                (
                    Nic {
                        net,
                        link_up: t[2]->Bool_0,
                        link_changed: t[3]->Bool_0,
                        mrg: t[4]->Bool_0,
                        pending_rx: t[5]->OptBytes_0,
                        rx_dropped: t[6]->U64_0,
                        ..s
                    },
                    rest,
                ),
            ),
        }
    }
}

impl<N: SavedNet> VirtioNet<N> {
    pub fn save_state(&self) -> (r: Vec<Field>)
        ensures
            tokens(r@) == nic_tokens::<N>(self@),
    {
        let mut r: Vec<Field> = Vec::new();
        r.push(Field::Raw(crate::bytes::to_vec(&self.mac)));
        r.push(Field::U64(flag_of(self.offer_mrg)));
        r.push(Field::Bool(self.link_up));
        r.push(Field::Bool(self.link_changed));
        r.push(Field::Bool(self.mrg));
        r.push(
            Field::OptBytes(
                match &self.pending_rx {
                    Some(f) => Some(copy_bytes(f)),
                    None => None,
                },
            ),
        );
        r.push(Field::U64(self.rx_dropped));
        assert(tokens(r@) =~= nic_row(self@));
        append(&mut r, self.backend.save_state());
        r
    }

    pub fn restore_state<S: Source>(&mut self, src: &mut S) -> (r: Result<(), Fault>)
        ensures
            match r {
                Ok(_) => nic_from::<N>(old(self)@, old(src).rest()) == Ok::<
                    (Nic<N::Model>, Seq<Token>),
                    Fault,
                >((final(self)@, final(src).rest())),
                Err(e) => {
                    &&& nic_from::<N>(old(self)@, old(src).rest()) == Err::<
                        (Nic<N::Model>, Seq<Token>),
                        Fault,
                    >(e)
                    &&& final(self)@ == old(self)@
                },
            },
    {
        let ghost t = src.rest();
        let kinds: Vec<Kind> = nic_kinds_list();
        let row: Vec<Field> = match read_row(src, kinds.as_slice()) {
            Ok(row) => row,
            Err(e) => {
                return Err(e);
            },
        };
        assert(t[0].is_kind(nic_kinds()[0]));
        assert(t[1].is_kind(nic_kinds()[1]));
        assert(t[2].is_kind(nic_kinds()[2]));
        assert(t[3].is_kind(nic_kinds()[3]));
        assert(t[4].is_kind(nic_kinds()[4]));
        assert(t[5].is_kind(nic_kinds()[5]));
        assert(t[6].is_kind(nic_kinds()[6]));
        let mac: Vec<u8> = row[0].raw();
        if !same_bytes(mac.as_slice(), &self.mac) {
            return Err(Fault::Differs(Subject::NetMac));
        }
        if row[1].u64() != flag_of(self.offer_mrg) {
            return Err(Fault::Differs(Subject::MergeOffer));
        }
        match self.backend.restore_state(src) {
            Ok(_) => {
                self.link_up = row[2].bool();
                self.link_changed = row[3].bool();
                self.mrg = row[4].bool();
                self.pending_rx = row[5].opt_bytes();
                self.rx_dropped = row[6].u64();
                assert(self@ =~= (nic_from::<N>(old(self)@, t)->Ok_0).0);
                Ok(())
            },
            Err(e) => Err(e),
        }
    }
}

/// A network device that was saved is restored as it was, on a device with the
/// same configuration whose network is restored.
pub proof fn law_network_device_comes_back<N: SavedNet>(
    s: Nic<N::Model>,
    n: Nic<N::Model>,
    rest: Seq<Token>,
)
    requires
        s.mac.len() == 6,
        n.mac == s.mac,
        n.offer_mrg == s.offer_mrg,
        N::revived(n.net, N::saved(s.net) + rest) == Ok::<(N::Model, Seq<Token>), Fault>(
            (s.net, rest),
        ),
    ensures
        nic_from::<N>(n, nic_tokens::<N>(s) + rest) == Ok::<(Nic<N::Model>, Seq<Token>), Fault>(
            (s, rest),
        ),
{
    let row = nic_row(s);
    lemma_join(row, N::saved(s.net), rest);
    assert(row[0] == Token::Raw(s.mac));
    assert(row[1] == Token::U64(flag(s.offer_mrg)));
    assert(row[2] == Token::Bool(s.link_up));
    assert(row[3] == Token::Bool(s.link_changed));
    assert(row[4] == Token::Bool(s.mrg));
    assert(row[5] == Token::OptBytes(s.pending_rx));
    assert(row[6] == Token::U64(s.rx_dropped));
    law_row_comes_back(row, nic_kinds(), N::saved(s.net) + rest);
}

} // verus!
