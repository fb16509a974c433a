//! The binary layout of records and instruction arguments: integers are
//! little-endian, text is a `u32` byte count followed by UTF-8 bytes, an
//! optional roster is a tag byte (0 absent, 1 present) followed by a `u32`
//! count and 33 bytes per player.
use crate::instruction::{UpdateGameArgs, UpdateRaceArgs};
use crate::state::{
    roster_opt_view, roster_view, GameModel, MetaModel, Player, PlayerModel, Pubkey, RaceAccount,
    RecordModel,
};
use vstd::slice::{slice_subrange, slice_to_vec};
use vstd::bytes::*;
use vstd::prelude::*;
use vstd::utf8::*;

verus! {

broadcast use encode_utf8_valid_utf8, encode_utf8_decode_utf8, decode_utf8_encode_utf8;

// ---------------------------------------------------------------------------
// Encodings

pub open spec fn enc_text(s: Seq<char>) -> Seq<u8> {
    spec_u32_to_le_bytes(encode_utf8(s).len() as u32) + encode_utf8(s)
}

pub open spec fn enc_player(p: PlayerModel) -> Seq<u8> {
    p.address + seq![p.slot]
}

pub open spec fn enc_players(ps: Seq<PlayerModel>) -> Seq<u8>
    decreases ps.len(),
{
    if ps.len() == 0 {
        Seq::empty()
    } else {
        enc_players(ps.drop_last()) + enc_player(ps.last())
    }
}

pub open spec fn enc_roster(r: Option<Seq<PlayerModel>>) -> Seq<u8> {
    match r {
        None => seq![0u8],
        Some(ps) => seq![1u8] + spec_u32_to_le_bytes(ps.len() as u32) + enc_players(ps),
    }
}

pub open spec fn enc_meta(m: MetaModel) -> Seq<u8> {
    seq![m.status] + seq![m.level] + seq![m.kind] + spec_u64_to_le_bytes(m.date) + enc_text(
        m.name,
    ) + enc_text(m.location) + spec_u16_to_le_bytes(m.distance) + spec_u16_to_le_bytes(
        m.entry_fee,
    ) + spec_u16_to_le_bytes(m.prize_pool)
}

pub open spec fn enc_game(g: GameModel) -> Seq<u8> {
    enc_text(g.game_url) + spec_u64_to_le_bytes(g.end_date)
}

/// The stored form of a race record.
pub open spec fn enc_record(r: RecordModel) -> Seq<u8> {
    enc_meta(r.meta) + enc_game(r.game) + enc_roster(r.players)
}

// ---------------------------------------------------------------------------
// What the layout can hold

pub open spec fn text_fits(s: Seq<char>) -> bool {
    encode_utf8(s).len() <= u32::MAX
}

pub open spec fn meta_fits(m: MetaModel) -> bool {
    text_fits(m.name) && text_fits(m.location)
}

pub open spec fn game_fits(g: GameModel) -> bool {
    text_fits(g.game_url)
}

pub open spec fn player_fits(p: PlayerModel) -> bool {
    p.address.len() == 32
}

pub open spec fn roster_fits(r: Option<Seq<PlayerModel>>) -> bool {
    match r {
        None => true,
        Some(ps) => ps.len() <= u32::MAX && forall|k: int|
            0 <= k < ps.len() ==> player_fits(#[trigger] ps[k]),
    }
}

/// A record that the layout can represent.
pub open spec fn record_fits(r: RecordModel) -> bool {
    meta_fits(r.meta) && game_fits(r.game) && roster_fits(r.players)
}

// ---------------------------------------------------------------------------
// Decoding: each parser reads at position `i` of `b` and gives the value and
// the position after it.

pub open spec fn parse_u8(b: Seq<u8>, i: int) -> Option<(u8, int)> {
    if 0 <= i < b.len() {
        Some((b[i], i + 1))
    } else {
        None
    }
}

pub open spec fn parse_u16(b: Seq<u8>, i: int) -> Option<(u16, int)> {
    if 0 <= i && i + 2 <= b.len() {
        Some((spec_u16_from_le_bytes(b.subrange(i, i + 2)), i + 2))
    } else {
        None
    }
}

pub open spec fn parse_u32(b: Seq<u8>, i: int) -> Option<(u32, int)> {
    if 0 <= i && i + 4 <= b.len() {
        Some((spec_u32_from_le_bytes(b.subrange(i, i + 4)), i + 4))
    } else {
        None
    }
}

pub open spec fn parse_u64(b: Seq<u8>, i: int) -> Option<(u64, int)> {
    if 0 <= i && i + 8 <= b.len() {
        Some((spec_u64_from_le_bytes(b.subrange(i, i + 8)), i + 8))
    } else {
        None
    }
}

pub open spec fn parse_text(b: Seq<u8>, i: int) -> Option<(Seq<char>, int)> {
    match parse_u32(b, i) {
        Some((n, j)) => if j + n <= b.len() && valid_utf8(b.subrange(j, j + n)) {
            Some((decode_utf8(b.subrange(j, j + n)), j + n))
        } else {
            None
        },
        None => None,
    }
}

pub open spec fn player_at(b: Seq<u8>, i: int) -> PlayerModel {
    PlayerModel { address: b.subrange(i, i + 32), slot: b[i + 32] }
}

pub open spec fn parse_player(b: Seq<u8>, i: int) -> Option<(PlayerModel, int)> {
    if 0 <= i && i + 33 <= b.len() {
        Some((player_at(b, i), i + 33))
    } else {
        None
    }
}

pub open spec fn players_at(b: Seq<u8>, i: int, n: nat) -> Seq<PlayerModel> {
    Seq::new(n, |m: int| player_at(b, i + 33 * m))
}

pub open spec fn parse_roster(b: Seq<u8>, i: int) -> Option<(Option<Seq<PlayerModel>>, int)> {
    match parse_u8(b, i) {
        Some((tag, j)) => if tag == 0 {
            Some((None, j))
        } else if tag == 1 {
            match parse_u32(b, j) {
                Some((n, k)) => if k + 33 * n <= b.len() {
                    Some((Some(players_at(b, k, n as nat)), k + 33 * n))
                } else {
                    None
                },
                None => None,
            }
        } else {
            None
        },
        None => None,
    }
}

pub open spec fn parse_meta(b: Seq<u8>, i: int) -> Option<(MetaModel, int)> {
    match parse_u8(b, i) {
        None => None,
        Some((status, i1)) => match parse_u8(b, i1) {
            None => None,
            Some((level, i2)) => match parse_u8(b, i2) {
                None => None,
                Some((kind, i3)) => match parse_u64(b, i3) {
                    None => None,
                    Some((date, i4)) => match parse_text(b, i4) {
                        None => None,
                        Some((name, i5)) => match parse_text(b, i5) {
                            None => None,
                            Some((location, i6)) => match parse_u16(b, i6) {
                                None => None,
                                Some((distance, i7)) => match parse_u16(b, i7) {
                                    None => None,
                                    Some((entry_fee, i8)) => match parse_u16(b, i8) {
                                        None => None,
                                        Some((prize_pool, i9)) => Some(
                                            (
                                                MetaModel {
                                                    status,
                                                    level,
                                                    kind,
                                                    date,
                                                    name,
                                                    location,
                                                    distance,
                                                    entry_fee,
                                                    prize_pool,
                                                },
                                                i9,
                                            ),
                                        ),
                                    },
                                },
                            },
                        },
                    },
                },
            },
        },
    }
}

pub open spec fn parse_game(b: Seq<u8>, i: int) -> Option<(GameModel, int)> {
    match parse_text(b, i) {
        None => None,
        Some((game_url, j)) => match parse_u64(b, j) {
            None => None,
            Some((end_date, k)) => Some((GameModel { game_url, end_date }, k)),
        },
    }
}

/// Reads a race record from the front of `b`; bytes after it are ignored.
pub open spec fn parse_record(b: Seq<u8>, i: int) -> Option<(RecordModel, int)> {
    match parse_meta(b, i) {
        None => None,
        Some((meta, j)) => match parse_game(b, j) {
            None => None,
            Some((game, k)) => match parse_roster(b, k) {
                None => None,
                Some((players, l)) => Some((RecordModel { meta, game, players }, l)),
            },
        },
    }
}

// ---------------------------------------------------------------------------
// Each parser reads back what the matching encoding wrote, and what it reads
// is the encoding of what it returns.

pub(crate) proof fn lemma_split(b: Seq<u8>, i: int, x: Seq<u8>, y: Seq<u8>)
    requires
        0 <= i,
        i + x.len() + y.len() <= b.len(),
        b.subrange(i, i + x.len() + y.len()) == x + y,
    ensures
        b.subrange(i, i + x.len()) == x,
        b.subrange(i + x.len(), i + x.len() + y.len()) == y,
{
    let w = b.subrange(i, i + x.len() + y.len());
    assert forall|t: int| 0 <= t < x.len() implies b.subrange(i, i + x.len())[t] == x[t] by {
        assert(w[t] == (x + y)[t]);
    }
    assert forall|t: int| 0 <= t < y.len() implies b.subrange(
        i + x.len(),
        i + x.len() + y.len(),
    )[t] == y[t] by {
        assert(w[x.len() + t] == (x + y)[x.len() + t]);
    }
    assert(b.subrange(i, i + x.len()) =~= x);
    assert(b.subrange(i + x.len(), i + x.len() + y.len()) =~= y);
}

pub(crate) proof fn lemma_join(b: Seq<u8>, i: int, j: int, k: int, x: Seq<u8>, y: Seq<u8>)
    requires
        0 <= i <= j <= k <= b.len(),
        b.subrange(i, j) == x,
        b.subrange(j, k) == y,
    ensures
        b.subrange(i, k) == x + y,
{
    assert forall|t: int| 0 <= t < k - i implies b.subrange(i, k)[t] == (x + y)[t] by {
        if t < j - i {
            assert(b.subrange(i, j)[t] == b[i + t]);
        } else {
            assert(b.subrange(j, k)[t - (j - i)] == b[i + t]);
        }
    }
    assert(b.subrange(i, k) =~= x + y);
}

pub(crate) proof fn lemma_u8_wire(b: Seq<u8>, i: int, v: u8)
    ensures
        parse_u8(b, i) matches Some((w, j)) ==> j == i + 1 && b.subrange(i, j) == seq![w],
        0 <= i && i + 1 <= b.len() && b.subrange(i, i + 1) == seq![v] ==> parse_u8(b, i) == Some(
            (v, i + 1),
        ),
{
    if 0 <= i < b.len() {
        assert(b.subrange(i, i + 1) =~= seq![b[i]]);
        assert(b.subrange(i, i + 1)[0] == b[i]);
    }
}

proof fn lemma_u16_wire(b: Seq<u8>, i: int, v: u16)
    ensures
        parse_u16(b, i) matches Some((w, j)) ==> j == i + 2 && b.subrange(i, j)
            == spec_u16_to_le_bytes(w),
        spec_u16_to_le_bytes(v).len() == 2,
        0 <= i && i + 2 <= b.len() && b.subrange(i, i + 2) == spec_u16_to_le_bytes(v)
            ==> parse_u16(b, i) == Some((v, i + 2)),
{
    lemma_auto_spec_u16_to_from_le_bytes();
    if 0 <= i && i + 2 <= b.len() {
        let s = b.subrange(i, i + 2);
        assert(spec_u16_to_le_bytes(spec_u16_from_le_bytes(s)) == s);
    }
}

proof fn lemma_u32_wire(b: Seq<u8>, i: int, v: u32)
    ensures
        parse_u32(b, i) matches Some((w, j)) ==> j == i + 4 && b.subrange(i, j)
            == spec_u32_to_le_bytes(w),
        spec_u32_to_le_bytes(v).len() == 4,
        0 <= i && i + 4 <= b.len() && b.subrange(i, i + 4) == spec_u32_to_le_bytes(v)
            ==> parse_u32(b, i) == Some((v, i + 4)),
{
    lemma_auto_spec_u32_to_from_le_bytes();
    if 0 <= i && i + 4 <= b.len() {
        let s = b.subrange(i, i + 4);
        assert(spec_u32_to_le_bytes(spec_u32_from_le_bytes(s)) == s);
    }
}

proof fn lemma_u64_wire(b: Seq<u8>, i: int, v: u64)
    ensures
        parse_u64(b, i) matches Some((w, j)) ==> j == i + 8 && b.subrange(i, j)
            == spec_u64_to_le_bytes(w),
        spec_u64_to_le_bytes(v).len() == 8,
        0 <= i && i + 8 <= b.len() && b.subrange(i, i + 8) == spec_u64_to_le_bytes(v)
            ==> parse_u64(b, i) == Some((v, i + 8)),
{
    lemma_auto_spec_u64_to_from_le_bytes();
    if 0 <= i && i + 8 <= b.len() {
        let s = b.subrange(i, i + 8);
        assert(spec_u64_to_le_bytes(spec_u64_from_le_bytes(s)) == s);
    }
}

proof fn lemma_text_wire(b: Seq<u8>, i: int, s: Seq<char>)
    ensures
        parse_text(b, i) matches Some((t, j)) ==> text_fits(t) && j == i + enc_text(t).len()
            && b.subrange(i, j) == enc_text(t),
        text_fits(s) ==> enc_text(s).len() == 4 + encode_utf8(s).len(),
        text_fits(s) && 0 <= i && i + enc_text(s).len() <= b.len() && b.subrange(
            i,
            i + enc_text(s).len(),
        ) == enc_text(s) ==> parse_text(b, i) == Some((s, i + enc_text(s).len())),
{
    lemma_auto_spec_u32_to_from_le_bytes();
    if parse_text(b, i) is Some {
        let (n, j) = parse_u32(b, i).unwrap();
        lemma_u32_wire(b, i, n);
        let u = b.subrange(j, j + n);
        let t = decode_utf8(u);
        assert(encode_utf8(t) == u);
        lemma_join(b, i, j, j + n, spec_u32_to_le_bytes(n), u);
    }
    if text_fits(s) && 0 <= i && i + enc_text(s).len() <= b.len() && b.subrange(
        i,
        i + enc_text(s).len(),
    ) == enc_text(s) {
        let len = encode_utf8(s).len() as u32;
        lemma_split(b, i, spec_u32_to_le_bytes(len), encode_utf8(s));
        lemma_u32_wire(b, i, len);
    }
}

proof fn lemma_players_len(ps: Seq<PlayerModel>)
    requires
        forall|k: int| 0 <= k < ps.len() ==> player_fits(#[trigger] ps[k]),
    ensures
        enc_players(ps).len() == 33 * ps.len(),
    decreases ps.len(),
{
    if ps.len() > 0 {
        assert(player_fits(ps[ps.len() - 1]));
        lemma_players_len(ps.drop_last());
    }
}

proof fn lemma_players_sound(b: Seq<u8>, k: int, n: nat)
    requires
        0 <= k,
        k + 33 * n <= b.len(),
    ensures
        enc_players(players_at(b, k, n)) == b.subrange(k, k + 33 * n),
    decreases n,
{
    let ps = players_at(b, k, n);
    if n == 0 {
        assert(b.subrange(k, k) =~= Seq::<u8>::empty());
    } else {
        let m = (n - 1) as nat;
        assert(ps.drop_last() =~= players_at(b, k, m));
        lemma_players_sound(b, k, m);
        let q = k + 33 * m;
        assert(enc_player(ps.last()) =~= b.subrange(q, q + 33));
        lemma_join(b, k, q, q + 33, b.subrange(k, q), b.subrange(q, q + 33));
    }
}

proof fn lemma_players_complete(b: Seq<u8>, k: int, ps: Seq<PlayerModel>)
    requires
        0 <= k,
        forall|t: int| 0 <= t < ps.len() ==> player_fits(#[trigger] ps[t]),
        k + 33 * ps.len() <= b.len(),
        b.subrange(k, k + 33 * ps.len()) == enc_players(ps),
    ensures
        players_at(b, k, ps.len()) == ps,
    decreases ps.len(),
{
    let n = ps.len();
    if n == 0 {
        assert(players_at(b, k, n) =~= ps);
    } else {
        let dl = ps.drop_last();
        let last = ps.last();
        assert(player_fits(ps[n - 1]));
        lemma_players_len(dl);
        lemma_split(b, k, enc_players(dl), enc_player(last));
        lemma_players_complete(b, k, dl);
        let q = k + 33 * (n - 1);
        lemma_split(b, q, last.address, seq![last.slot]);
        assert(b.subrange(q + 32, q + 33)[0] == b[q + 32]);
        assert(player_at(b, q) == last);
        assert forall|t: int| 0 <= t < n implies players_at(b, k, n)[t] == ps[t] by {
            if t < n - 1 {
                assert(players_at(b, k, (n - 1) as nat)[t] == dl[t]);
            }
        }
        assert(players_at(b, k, n) =~= ps);
    }
}

pub(crate) proof fn lemma_player_wire(b: Seq<u8>, i: int, p: PlayerModel)
    ensures
        parse_player(b, i) matches Some((q, j)) ==> player_fits(q) && j == i + 33 && b.subrange(
            i,
            j,
        ) == enc_player(q),
        player_fits(p) && 0 <= i && i + 33 <= b.len() && b.subrange(i, i + 33) == enc_player(p)
            ==> parse_player(b, i) == Some((p, i + 33)),
{
    if 0 <= i && i + 33 <= b.len() {
        assert(b.subrange(i, i + 33) =~= enc_player(player_at(b, i)));
        if player_fits(p) && b.subrange(i, i + 33) == enc_player(p) {
            lemma_split(b, i, p.address, seq![p.slot]);
            assert(b.subrange(i + 32, i + 33)[0] == b[i + 32]);
        }
    }
}

proof fn lemma_roster_wire(b: Seq<u8>, i: int, r: Option<Seq<PlayerModel>>)
    ensures
        parse_roster(b, i) matches Some((q, j)) ==> roster_fits(q) && j == i + enc_roster(q).len()
            && b.subrange(i, j) == enc_roster(q),
        roster_fits(r) && 0 <= i && i + enc_roster(r).len() <= b.len() && b.subrange(
            i,
            i + enc_roster(r).len(),
        ) == enc_roster(r) ==> parse_roster(b, i) == Some((r, i + enc_roster(r).len())),
{
    lemma_u8_wire(b, i, 0);
    if parse_roster(b, i) is Some {
        let (tag, j) = parse_u8(b, i).unwrap();
        if tag == 1 {
            let (n, k) = parse_u32(b, j).unwrap();
            lemma_u32_wire(b, j, n);
            let ps = players_at(b, k, n as nat);
            lemma_players_sound(b, k, n as nat);
            assert forall|t: int| 0 <= t < ps.len() implies player_fits(#[trigger] ps[t]) by {}
            lemma_players_len(ps);
            lemma_join(b, i, j, k, seq![1u8], spec_u32_to_le_bytes(n));
            lemma_join(
                b,
                i,
                k,
                k + 33 * n,
                seq![1u8] + spec_u32_to_le_bytes(n),
                enc_players(ps),
            );
        }
    }
    if roster_fits(r) && 0 <= i && i + enc_roster(r).len() <= b.len() && b.subrange(
        i,
        i + enc_roster(r).len(),
    ) == enc_roster(r) {
        match r {
            None => {
                lemma_u8_wire(b, i, 0);
            },
            Some(ps) => {
                let len = ps.len() as u32;
                lemma_u32_wire(b, i + 1, len);
                lemma_players_len(ps);
                lemma_split(b, i, seq![1u8] + spec_u32_to_le_bytes(len), enc_players(ps));
                lemma_split(b, i, seq![1u8], spec_u32_to_le_bytes(len));
                lemma_u8_wire(b, i, 1);
                lemma_players_complete(b, i + 5, ps);
            },
        }
    }
}

pub(crate) proof fn lemma_meta_wire(b: Seq<u8>, i: int, m: MetaModel)
    ensures
        parse_meta(b, i) matches Some((q, j)) ==> meta_fits(q) && j == i + enc_meta(q).len()
            && b.subrange(i, j) == enc_meta(q),
        meta_fits(m) && 0 <= i && i + enc_meta(m).len() <= b.len() && b.subrange(
            i,
            i + enc_meta(m).len(),
        ) == enc_meta(m) ==> parse_meta(b, i) == Some((m, i + enc_meta(m).len())),
{
    if parse_meta(b, i) is Some {
        let (status, i1) = parse_u8(b, i).unwrap();
        let (level, i2) = parse_u8(b, i1).unwrap();
        let (kind, i3) = parse_u8(b, i2).unwrap();
        let (date, i4) = parse_u64(b, i3).unwrap();
        let (name, i5) = parse_text(b, i4).unwrap();
        let (location, i6) = parse_text(b, i5).unwrap();
        let (distance, i7) = parse_u16(b, i6).unwrap();
        let (entry_fee, i8) = parse_u16(b, i7).unwrap();
        let (prize_pool, i9) = parse_u16(b, i8).unwrap();
        lemma_u8_wire(b, i, 0);
        lemma_u8_wire(b, i1, 0);
        lemma_u8_wire(b, i2, 0);
        lemma_u64_wire(b, i3, 0);
        lemma_text_wire(b, i4, name);
        lemma_text_wire(b, i5, location);
        lemma_u16_wire(b, i6, 0);
        lemma_u16_wire(b, i7, 0);
        lemma_u16_wire(b, i8, 0);
        let e1 = seq![status];
        let e2 = seq![level];
        let e3 = seq![kind];
        let e4 = spec_u64_to_le_bytes(date);
        let e5 = enc_text(name);
        let e6 = enc_text(location);
        let e7 = spec_u16_to_le_bytes(distance);
        let e8 = spec_u16_to_le_bytes(entry_fee);
        let e9 = spec_u16_to_le_bytes(prize_pool);
        lemma_join(b, i, i1, i2, e1, e2);
        lemma_join(b, i, i2, i3, e1 + e2, e3);
        lemma_join(b, i, i3, i4, e1 + e2 + e3, e4);
        lemma_join(b, i, i4, i5, e1 + e2 + e3 + e4, e5);
        lemma_join(b, i, i5, i6, e1 + e2 + e3 + e4 + e5, e6);
        lemma_join(b, i, i6, i7, e1 + e2 + e3 + e4 + e5 + e6, e7);
        lemma_join(b, i, i7, i8, e1 + e2 + e3 + e4 + e5 + e6 + e7, e8);
        lemma_join(b, i, i8, i9, e1 + e2 + e3 + e4 + e5 + e6 + e7 + e8, e9);
    }
    if meta_fits(m) && 0 <= i && i + enc_meta(m).len() <= b.len() && b.subrange(
        i,
        i + enc_meta(m).len(),
    ) == enc_meta(m) {
        let e1 = seq![m.status];
        let e2 = seq![m.level];
        let e3 = seq![m.kind];
        let e4 = spec_u64_to_le_bytes(m.date);
        let e5 = enc_text(m.name);
        let e6 = enc_text(m.location);
        let e7 = spec_u16_to_le_bytes(m.distance);
        let e8 = spec_u16_to_le_bytes(m.entry_fee);
        let e9 = spec_u16_to_le_bytes(m.prize_pool);
        lemma_split(b, i, e1 + e2 + e3 + e4 + e5 + e6 + e7 + e8, e9);
        lemma_split(b, i, e1 + e2 + e3 + e4 + e5 + e6 + e7, e8);
        lemma_split(b, i, e1 + e2 + e3 + e4 + e5 + e6, e7);
        lemma_split(b, i, e1 + e2 + e3 + e4 + e5, e6);
        lemma_split(b, i, e1 + e2 + e3 + e4, e5);
        lemma_split(b, i, e1 + e2 + e3, e4);
        lemma_split(b, i, e1 + e2, e3);
        lemma_split(b, i, e1, e2);
        let i1 = i + 1;
        let i2 = i1 + 1;
        let i3 = i2 + 1;
        let i4 = i3 + e4.len();
        let i5 = i4 + e5.len();
        let i6 = i5 + e6.len();
        let i7 = i6 + e7.len();
        let i8 = i7 + e8.len();
        lemma_u8_wire(b, i, m.status);
        lemma_u8_wire(b, i1, m.level);
        lemma_u8_wire(b, i2, m.kind);
        lemma_u64_wire(b, i3, m.date);
        lemma_text_wire(b, i4, m.name);
        lemma_text_wire(b, i5, m.location);
        lemma_u16_wire(b, i6, m.distance);
        lemma_u16_wire(b, i7, m.entry_fee);
        lemma_u16_wire(b, i8, m.prize_pool);
    }
}

pub(crate) proof fn lemma_game_wire(b: Seq<u8>, i: int, g: GameModel)
    ensures
        parse_game(b, i) matches Some((q, j)) ==> game_fits(q) && j == i + enc_game(q).len()
            && b.subrange(i, j) == enc_game(q),
        game_fits(g) && 0 <= i && i + enc_game(g).len() <= b.len() && b.subrange(
            i,
            i + enc_game(g).len(),
        ) == enc_game(g) ==> parse_game(b, i) == Some((g, i + enc_game(g).len())),
{
    if parse_game(b, i) is Some {
        let (game_url, j) = parse_text(b, i).unwrap();
        let (end_date, k) = parse_u64(b, j).unwrap();
        lemma_text_wire(b, i, game_url);
        lemma_u64_wire(b, j, 0);
        lemma_join(b, i, j, k, enc_text(game_url), spec_u64_to_le_bytes(end_date));
    }
    if game_fits(g) && 0 <= i && i + enc_game(g).len() <= b.len() && b.subrange(
        i,
        i + enc_game(g).len(),
    ) == enc_game(g) {
        lemma_split(b, i, enc_text(g.game_url), spec_u64_to_le_bytes(g.end_date));
        lemma_text_wire(b, i, g.game_url);
        lemma_u64_wire(b, i + enc_text(g.game_url).len(), g.end_date);
    }
}

/// What `parse_record` reads is the stored form of what it returns, and it
/// reads back the stored form of every representable record.
pub proof fn lemma_record_wire(b: Seq<u8>, i: int, r: RecordModel)
    ensures
        parse_record(b, i) matches Some((q, j)) ==> record_fits(q) && j == i + enc_record(
            q,
        ).len() && b.subrange(i, j) == enc_record(q),
        record_fits(r) && 0 <= i && i + enc_record(r).len() <= b.len() && b.subrange(
            i,
            i + enc_record(r).len(),
        ) == enc_record(r) ==> parse_record(b, i) == Some((r, i + enc_record(r).len())),
{
    if parse_record(b, i) is Some {
        let (meta, j) = parse_meta(b, i).unwrap();
        let (game, k) = parse_game(b, j).unwrap();
        let (players, l) = parse_roster(b, k).unwrap();
        lemma_meta_wire(b, i, meta);
        lemma_game_wire(b, j, game);
        lemma_roster_wire(b, k, players);
        lemma_join(b, i, j, k, enc_meta(meta), enc_game(game));
        lemma_join(b, i, k, l, enc_meta(meta) + enc_game(game), enc_roster(players));
    }
    if record_fits(r) && 0 <= i && i + enc_record(r).len() <= b.len() && b.subrange(
        i,
        i + enc_record(r).len(),
    ) == enc_record(r) {
        let e1 = enc_meta(r.meta);
        let e2 = enc_game(r.game);
        let e3 = enc_roster(r.players);
        lemma_split(b, i, e1 + e2, e3);
        lemma_split(b, i, e1, e2);
        lemma_meta_wire(b, i, r.meta);
        lemma_game_wire(b, i + e1.len(), r.game);
        lemma_roster_wire(b, i + e1.len() + e2.len(), r.players);
    }
}

// ---------------------------------------------------------------------------
// Reading

/// Relies on `String::from_utf8`: it succeeds exactly on valid UTF-8, and the
/// string it returns holds the bytes it was given.
#[verifier::external_body]
fn text_from_utf8(v: Vec<u8>) -> (r: Option<String>)
    ensures
        r is Some <==> valid_utf8(v@),
        r matches Some(s) ==> encode_utf8(s@) == v@,
{
    String::from_utf8(v).ok()
}

pub(crate) fn read_u8(b: &[u8], i: usize) -> (r: Option<(u8, usize)>)
    ensures
        parse_u8(b@, i as int) == match r {
            Some((v, j)) => Some((v, j as int)),
            None => None,
        },
{
    if i < b.len() {
        Some((b[i], i + 1))
    } else {
        None
    }
}

fn read_u16(b: &[u8], i: usize) -> (r: Option<(u16, usize)>)
    ensures
        parse_u16(b@, i as int) == match r {
            Some((v, j)) => Some((v, j as int)),
            None => None,
        },
{
    if i <= b.len() && b.len() - i >= 2 {
        Some((u16_from_le_bytes(slice_subrange(b, i, i + 2)), i + 2))
    } else {
        None
    }
}

fn read_u32(b: &[u8], i: usize) -> (r: Option<(u32, usize)>)
    ensures
        parse_u32(b@, i as int) == match r {
            Some((v, j)) => Some((v, j as int)),
            None => None,
        },
{
    if i <= b.len() && b.len() - i >= 4 {
        Some((u32_from_le_bytes(slice_subrange(b, i, i + 4)), i + 4))
    } else {
        None
    }
}

fn read_u64(b: &[u8], i: usize) -> (r: Option<(u64, usize)>)
    ensures
        parse_u64(b@, i as int) == match r {
            Some((v, j)) => Some((v, j as int)),
            None => None,
        },
{
    if i <= b.len() && b.len() - i >= 8 {
        Some((u64_from_le_bytes(slice_subrange(b, i, i + 8)), i + 8))
    } else {
        None
    }
}

fn read_text(b: &[u8], i: usize) -> (r: Option<(String, usize)>)
    ensures
        parse_text(b@, i as int) == match r {
            Some((s, j)) => Some((s@, j as int)),
            None => None,
        },
{
    let (n, j) = match read_u32(b, i) {
        Some(x) => x,
        None => return None,
    };
    let n = n as usize;
    if n > b.len() - j {
        return None;
    }
    let bytes = slice_to_vec(slice_subrange(b, j, j + n));
    assert(bytes@ == b@.subrange(j as int, j + n));
    match text_from_utf8(bytes) {
        Some(s) => {
            assert(decode_utf8(encode_utf8(s@)) == s@);
            Some((s, j + n))
        },
        None => None,
    }
}

pub(crate) fn read_player(b: &[u8], i: usize) -> (r: Option<(Player, usize)>)
    ensures
        parse_player(b@, i as int) == match r {
            Some((p, j)) => Some((p@, j as int)),
            None => None,
        },
{
    if i > b.len() || b.len() - i < 33 {
        return None;
    }
    let mut address: Pubkey = [0u8; 32];
    let mut k: usize = 0;
    while k < 32
        invariant
            i + 33 <= b.len(),
            k <= 32,
            forall|t: int| 0 <= t < k ==> address@[t] == b@[i + t],
        decreases 32 - k,
    {
        address[k] = b[i + k];
        k = k + 1;
    }
    assert(address@ =~= b@.subrange(i as int, i + 32));
    Some((Player { address, slot: b[i + 32] }, i + 33))
}

fn read_roster(b: &[u8], i: usize) -> (r: Option<(Option<Vec<Player>>, usize)>)
    ensures
        parse_roster(b@, i as int) == match r {
            Some((q, j)) => Some((roster_opt_view(q), j as int)),
            None => None,
        },
{
    let (tag, j) = match read_u8(b, i) {
        Some(x) => x,
        None => return None,
    };
    if tag == 0 {
        return Some((None, j));
    }
    if tag != 1 {
        return None;
    }
    let (n, k) = match read_u32(b, j) {
        Some(x) => x,
        None => return None,
    };
    if (n as u64) * 33 > (b.len() - k) as u64 {
        return None;
    }
    let n = n as usize;
    let mut players: Vec<Player> = Vec::new();
    let mut m: usize = 0;
    let mut pos: usize = k;
    while m < n
        invariant
            k + 33 * n <= b@.len(),
            m <= n,
            pos == k + 33 * m,
            roster_view(players@) == players_at(b@, k as int, m as nat),
        decreases n - m,
    {
        let (p, next) = match read_player(b, pos) {
            Some(x) => x,
            None => return None,
        };
        proof {
            assert(roster_view(players@.push(p)) =~= roster_view(players@).push(p@));
            assert(players_at(b@, k as int, (m + 1) as nat) =~= players_at(
                b@,
                k as int,
                m as nat,
            ).push(player_at(b@, pos as int)));
        }
        players.push(p);
        m = m + 1;
        pos = next;
    }
    Some((Some(players), pos))
}

pub(crate) fn read_meta(b: &[u8], i: usize) -> (r: Option<(UpdateRaceArgs, usize)>)
    ensures
        parse_meta(b@, i as int) == match r {
            Some((a, j)) => Some((a@, j as int)),
            None => None,
        },
{
    let (status, i) = match read_u8(b, i) {
        Some(x) => x,
        None => return None,
    };
    let (level, i) = match read_u8(b, i) {
        Some(x) => x,
        None => return None,
    };
    let (kind, i) = match read_u8(b, i) {
        Some(x) => x,
        None => return None,
    };
    let (date, i) = match read_u64(b, i) {
        Some(x) => x,
        None => return None,
    };
    let (name, i) = match read_text(b, i) {
        Some(x) => x,
        None => return None,
    };
    let (location, i) = match read_text(b, i) {
        Some(x) => x,
        None => return None,
    };
    let (distance, i) = match read_u16(b, i) {
        Some(x) => x,
        None => return None,
    };
    let (entry_fee, i) = match read_u16(b, i) {
        Some(x) => x,
        None => return None,
    };
    let (prize_pool, i) = match read_u16(b, i) {
        Some(x) => x,
        None => return None,
    };
    Some(
        (
            UpdateRaceArgs {
                status,
                level,
                kind,
                date,
                name,
                location,
                distance,
                entry_fee,
                prize_pool,
            },
            i,
        ),
    )
}

pub(crate) fn read_game(b: &[u8], i: usize) -> (r: Option<(UpdateGameArgs, usize)>)
    ensures
        parse_game(b@, i as int) == match r {
            Some((a, j)) => Some((a@, j as int)),
            None => None,
        },
{
    let (game_url, i) = match read_text(b, i) {
        Some(x) => x,
        None => return None,
    };
    let (end_date, i) = match read_u64(b, i) {
        Some(x) => x,
        None => return None,
    };
    Some((UpdateGameArgs { game_url, end_date }, i))
}

pub(crate) fn read_record(b: &[u8], i: usize) -> (r: Option<(RaceAccount, usize)>)
    ensures
        parse_record(b@, i as int) == match r {
            Some((a, j)) => Some((a@, j as int)),
            None => None,
        },
{
    let (meta, i) = match read_meta(b, i) {
        Some(x) => x,
        None => return None,
    };
    let (game, i) = match read_game(b, i) {
        Some(x) => x,
        None => return None,
    };
    let (players, i) = match read_roster(b, i) {
        Some(x) => x,
        None => return None,
    };
    let record = RaceAccount {
        status: meta.status,
        level: meta.level,
        kind: meta.kind,
        date: meta.date,
        name: meta.name,
        location: meta.location,
        distance: meta.distance,
        entry_fee: meta.entry_fee,
        prize_pool: meta.prize_pool,
        game_url: game.game_url,
        end_date: game.end_date,
        players,
    };
    Some((record, i))
}

// ---------------------------------------------------------------------------
// Writing

fn write_bytes(out: &mut Vec<u8>, b: &[u8])
    ensures
        final(out)@ == old(out)@ + b@,
{
    let mut k: usize = 0;
    while k < b.len()
        invariant
            k <= b@.len(),
            out@ == old(out)@ + b@.subrange(0, k as int),
        decreases b.len() - k,
    {
        proof {
            assert(b@.subrange(0, k + 1) =~= b@.subrange(0, k as int).push(b@[k as int]));
        }
        out.push(b[k]);
        k = k + 1;
    }
    assert(b@.subrange(0, b@.len() as int) =~= b@);
}

fn write_u8(out: &mut Vec<u8>, v: u8)
    ensures
        final(out)@ == old(out)@ + seq![v],
{
    out.push(v);
    assert(out@ =~= old(out)@ + seq![v]);
}

fn write_u16(out: &mut Vec<u8>, v: u16)
    ensures
        final(out)@ == old(out)@ + spec_u16_to_le_bytes(v),
{
    let mut t = u16_to_le_bytes(v);
    out.append(&mut t);
}

fn write_u32(out: &mut Vec<u8>, v: u32)
    ensures
        final(out)@ == old(out)@ + spec_u32_to_le_bytes(v),
{
    let mut t = u32_to_le_bytes(v);
    out.append(&mut t);
}

fn write_u64(out: &mut Vec<u8>, v: u64)
    ensures
        final(out)@ == old(out)@ + spec_u64_to_le_bytes(v),
{
    let mut t = u64_to_le_bytes(v);
    out.append(&mut t);
}

pub(crate) fn text_fits_exec(s: &String) -> (r: bool)
    ensures
        r == text_fits(s@),
{
    s.as_str().as_bytes().len() as u64 <= u32::MAX as u64
}

fn write_text(out: &mut Vec<u8>, s: &String)
    requires
        text_fits(s@),
    ensures
        final(out)@ == old(out)@ + enc_text(s@),
{
    let bytes = s.as_str().as_bytes();
    write_u32(out, bytes.len() as u32);
    write_bytes(out, bytes);
    assert(out@ =~= old(out)@ + enc_text(s@));
}

pub(crate) fn write_player(out: &mut Vec<u8>, p: &Player)
    ensures
        final(out)@ == old(out)@ + enc_player(p@),
{
    let mut k: usize = 0;
    while k < 32
        invariant
            k <= 32,
            out@ == old(out)@ + p.address@.subrange(0, k as int),
        decreases 32 - k,
    {
        proof {
            assert(p.address@.subrange(0, k + 1) =~= p.address@.subrange(0, k as int).push(
                p.address@[k as int],
            ));
        }
        out.push(p.address[k]);
        k = k + 1;
    }
    assert(p.address@.subrange(0, 32) =~= p.address@);
    write_u8(out, p.slot);
    assert(out@ =~= old(out)@ + enc_player(p@));
}

fn write_roster(out: &mut Vec<u8>, q: &Option<Vec<Player>>)
    requires
        roster_fits(roster_opt_view(*q)),
    ensures
        final(out)@ == old(out)@ + enc_roster(roster_opt_view(*q)),
{
    match q {
        None => write_u8(out, 0),
        Some(v) => {
            write_u8(out, 1);
            write_u32(out, v.len() as u32);
            let ghost start = out@;
            let mut k: usize = 0;
            while k < v.len()
                invariant
                    k <= v@.len(),
                    out@ == start + enc_players(roster_view(v@.subrange(0, k as int))),
                decreases v.len() - k,
            {
                proof {
                    let next = roster_view(v@.subrange(0, k + 1));
                    assert(next.drop_last() =~= roster_view(v@.subrange(0, k as int)));
                    assert(next.last() == v@[k as int]@);
                }
                write_player(out, &v[k]);
                k = k + 1;
            }
            assert(v@.subrange(0, v@.len() as int) =~= v@);
            assert(out@ =~= old(out)@ + enc_roster(roster_opt_view(*q)));
        },
    }
}

fn write_meta_parts(
    out: &mut Vec<u8>,
    status: u8,
    level: u8,
    kind: u8,
    date: u64,
    name: &String,
    location: &String,
    distance: u16,
    entry_fee: u16,
    prize_pool: u16,
)
    requires
        text_fits(name@),
        text_fits(location@),
    ensures
        final(out)@ == old(out)@ + enc_meta(
            MetaModel {
                status,
                level,
                kind,
                date,
                name: name@,
                location: location@,
                distance,
                entry_fee,
                prize_pool,
            },
        ),
{
    write_u8(out, status);
    write_u8(out, level);
    write_u8(out, kind);
    write_u64(out, date);
    write_text(out, name);
    write_text(out, location);
    write_u16(out, distance);
    write_u16(out, entry_fee);
    write_u16(out, prize_pool);
    assert(out@ =~= old(out)@ + enc_meta(
        MetaModel {
            status,
            level,
            kind,
            date,
            name: name@,
            location: location@,
            distance,
            entry_fee,
            prize_pool,
        },
    ));
}

pub(crate) fn write_meta(out: &mut Vec<u8>, a: &UpdateRaceArgs)
    requires
        meta_fits(a@),
    ensures
        final(out)@ == old(out)@ + enc_meta(a@),
{
    write_meta_parts(
        out,
        a.status,
        a.level,
        a.kind,
        a.date,
        &a.name,
        &a.location,
        a.distance,
        a.entry_fee,
        a.prize_pool,
    );
}

pub(crate) fn write_game(out: &mut Vec<u8>, a: &UpdateGameArgs)
    requires
        game_fits(a@),
    ensures
        final(out)@ == old(out)@ + enc_game(a@),
{
    write_text(out, &a.game_url);
    write_u64(out, a.end_date);
    assert(out@ =~= old(out)@ + enc_game(a@));
}

pub(crate) fn record_fits_exec(r: &RaceAccount) -> (b: bool)
    ensures
        b == record_fits(r@),
{
    let roster_ok = match &r.players {
        None => true,
        Some(v) => {
            assert forall|k: int| 0 <= k < roster_view(v@).len() implies player_fits(
                #[trigger] roster_view(v@)[k],
            ) by {}
            v.len() as u64 <= u32::MAX as u64
        },
    };
    text_fits_exec(&r.name) && text_fits_exec(&r.location) && text_fits_exec(&r.game_url)
        && roster_ok
}

pub(crate) fn write_record(out: &mut Vec<u8>, r: &RaceAccount)
    requires
        record_fits(r@),
    ensures
        final(out)@ == old(out)@ + enc_record(r@),
{
    write_meta_parts(
        out,
        r.status,
        r.level,
        r.kind,
        r.date,
        &r.name,
        &r.location,
        r.distance,
        r.entry_fee,
        r.prize_pool,
    );
    write_text(out, &r.game_url);
    write_u64(out, r.end_date);
    write_roster(out, &r.players);
    assert(out@ =~= old(out)@ + enc_record(r@));
}

} // verus!
