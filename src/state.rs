//! The race record, its players, and the account that stores it.
use vstd::prelude::*;

verus! {

/// A 32-byte ledger identity.
pub type Pubkey = [u8; 32];

/// One entrant of a race.
#[derive(Clone, Copy, Debug, PartialEq, Eq)]
pub struct Player {
    pub address: Pubkey,
    pub slot: u8,
}

/// A player as a mathematical value.
pub struct PlayerModel {
    pub address: Seq<u8>,
    pub slot: u8,
}

impl View for Player {
    type V = PlayerModel;

    open spec fn view(&self) -> PlayerModel {
        PlayerModel { address: self.address@, slot: self.slot }
    }
}

/// The scheduling and prize fields of a race, as written by a metadata update.
pub struct MetaModel {
    pub status: u8,
    pub level: u8,
    pub kind: u8,
    pub date: u64,
    pub name: Seq<char>,
    pub location: Seq<char>,
    pub distance: u16,
    pub entry_fee: u16,
    pub prize_pool: u16,
}

/// The game fields of a race, as written by a game-info update.
pub struct GameModel {
    pub game_url: Seq<char>,
    pub end_date: u64,
}

/// A race record as a mathematical value. `players` is `None` until the
/// first join.
pub struct RecordModel {
    pub meta: MetaModel,
    pub game: GameModel,
    pub players: Option<Seq<PlayerModel>>,
}

/// The players of a roster, as values.
pub open spec fn roster_view(ps: Seq<Player>) -> Seq<PlayerModel> {
    ps.map_values(|p: Player| p@)
}

/// An optional roster, as values.
pub open spec fn roster_opt_view(q: Option<Vec<Player>>) -> Option<Seq<PlayerModel>> {
    match q {
        Some(v) => Some(roster_view(v@)),
        None => None,
    }
}

/// The race record stored in an account.
#[derive(Debug)]
pub struct RaceAccount {
    pub status: u8,
    pub level: u8,
    pub kind: u8,
    pub date: u64,
    pub name: String,
    pub location: String,
    pub distance: u16,
    pub entry_fee: u16,
    pub prize_pool: u16,
    pub game_url: String,
    pub end_date: u64,
    pub players: Option<Vec<Player>>,
}

impl View for RaceAccount {
    type V = RecordModel;

    open spec fn view(&self) -> RecordModel {
        RecordModel {
            meta: MetaModel {
                status: self.status,
                level: self.level,
                kind: self.kind,
                date: self.date,
                name: self.name@,
                location: self.location@,
                distance: self.distance,
                entry_fee: self.entry_fee,
                prize_pool: self.prize_pool,
            },
            game: GameModel { game_url: self.game_url@, end_date: self.end_date },
            players: roster_opt_view(self.players),
        }
    }
}

/// The part of a ledger account that the processor reads and writes: the
/// identity of the program that owns it, and its bytes.
#[derive(Debug)]
pub struct Account {
    pub owner: Pubkey,
    pub data: Vec<u8>,
}

} // verus!
