//! Instructions, their arguments, and their wire form.
use crate::error::RaceError;
use crate::state::{GameModel, MetaModel, Player, PlayerModel};
use crate::wire::{
    enc_game, enc_meta, enc_player, game_fits, meta_fits, parse_game, parse_meta, parse_player,
    parse_u8, player_fits, read_game, read_meta, read_player, read_u8, text_fits_exec, write_game,
    write_meta, write_player,
};
use vstd::prelude::*;

verus! {

/// Arguments of a metadata update.
#[derive(Debug, Clone, PartialEq)]
pub struct UpdateRaceArgs {
    pub status: u8,
    pub level: u8,
    pub kind: u8,
    pub date: u64,
    pub name: String,
    pub location: String,
    pub distance: u16,
    pub entry_fee: u16,
    pub prize_pool: u16,
}

impl View for UpdateRaceArgs {
    type V = MetaModel;

    open spec fn view(&self) -> MetaModel {
        MetaModel {
            status: self.status,
            level: self.level,
            kind: self.kind,
            date: self.date,
            name: self.name@,
            location: self.location@,
            distance: self.distance,
            entry_fee: self.entry_fee,
            prize_pool: self.prize_pool,
        }
    }
}

/// Arguments of a game-info update.
#[derive(Debug, Clone, PartialEq)]
pub struct UpdateGameArgs {
    pub game_url: String,
    pub end_date: u64,
}

impl View for UpdateGameArgs {
    type V = GameModel;

    open spec fn view(&self) -> GameModel {
        GameModel { game_url: self.game_url@, end_date: self.end_date }
    }
}

/// Arguments of a join.
#[derive(Debug, Clone, Copy, PartialEq)]
pub struct JoinRaceArgs {
    pub player: Player,
}

/// An instruction as a mathematical value.
pub enum InstructionModel {
    UpdateRace(MetaModel),
    UpdateGame(GameModel),
    JoinRace(PlayerModel),
}

/// The instructions the processor accepts.
#[derive(Debug, Clone)]
pub enum RaceInstruction {
    UpdateRace(UpdateRaceArgs),
    UpdateGame(UpdateGameArgs),
    JoinRace(JoinRaceArgs),
}

impl View for RaceInstruction {
    type V = InstructionModel;

    open spec fn view(&self) -> InstructionModel {
        match self {
            RaceInstruction::UpdateRace(a) => InstructionModel::UpdateRace(a@),
            RaceInstruction::UpdateGame(a) => InstructionModel::UpdateGame(a@),
            RaceInstruction::JoinRace(a) => InstructionModel::JoinRace(a.player@),
        }
    }
}

/// The wire form of an instruction: a variant byte (0, 1, 2 in declaration
/// order) followed by the variant's arguments.
pub open spec fn enc_instruction(ix: InstructionModel) -> Seq<u8> {
    match ix {
        InstructionModel::UpdateRace(m) => seq![0u8] + enc_meta(m),
        InstructionModel::UpdateGame(g) => seq![1u8] + enc_game(g),
        InstructionModel::JoinRace(p) => seq![2u8] + enc_player(p),
    }
}

/// An instruction that the wire form can represent.
pub open spec fn instruction_fits(ix: InstructionModel) -> bool {
    match ix {
        InstructionModel::UpdateRace(m) => meta_fits(m),
        InstructionModel::UpdateGame(g) => game_fits(g),
        InstructionModel::JoinRace(p) => player_fits(p),
    }
}

/// Decodes instruction bytes; every byte must belong to the instruction.
pub open spec fn parse_instruction(b: Seq<u8>) -> Option<InstructionModel> {
    match parse_u8(b, 0) {
        None => None,
        Some((tag, j)) => if tag == 0 {
            match parse_meta(b, j) {
                Some((m, k)) => if k == b.len() {
                    Some(InstructionModel::UpdateRace(m))
                } else {
                    None
                },
                None => None,
            }
        } else if tag == 1 {
            match parse_game(b, j) {
                Some((g, k)) => if k == b.len() {
                    Some(InstructionModel::UpdateGame(g))
                } else {
                    None
                },
                None => None,
            }
        } else if tag == 2 {
            match parse_player(b, j) {
                Some((p, k)) => if k == b.len() {
                    Some(InstructionModel::JoinRace(p))
                } else {
                    None
                },
                None => None,
            }
        } else {
            None
        },
    }
}

impl RaceInstruction {
    /// Decodes an instruction; fails with `MalformedInstruction` exactly when
    /// the bytes are not the wire form of one.
    pub fn try_from_slice(data: &[u8]) -> (r: Result<RaceInstruction, RaceError>)
        ensures
            match parse_instruction(data@) {
                Some(ix) => r matches Ok(v) && v@ == ix,
                None => r == Err::<RaceInstruction, RaceError>(RaceError::MalformedInstruction),
            },
    {
        let (tag, j) = match read_u8(data, 0) {
            Some(x) => x,
            None => return Err(RaceError::MalformedInstruction),
        };
        if tag == 0 {
            match read_meta(data, j) {
                Some((m, k)) => if k == data.len() {
                    return Ok(RaceInstruction::UpdateRace(m));
                },
                None => {},
            }
        } else if tag == 1 {
            match read_game(data, j) {
                Some((g, k)) => if k == data.len() {
                    return Ok(RaceInstruction::UpdateGame(g));
                },
                None => {},
            }
        } else if tag == 2 {
            match read_player(data, j) {
                Some((p, k)) => if k == data.len() {
                    return Ok(RaceInstruction::JoinRace(JoinRaceArgs { player: p }));
                },
                None => {},
            }
        }
        Err(RaceError::MalformedInstruction)
    }

    /// Encodes the instruction; `None` exactly when a text field is longer
    /// than the wire form can count.
    pub fn try_to_vec(&self) -> (r: Option<Vec<u8>>)
        ensures
            match r {
                Some(v) => instruction_fits(self@) && v@ == enc_instruction(self@),
                None => !instruction_fits(self@),
            },
    {
        let mut out: Vec<u8> = Vec::new();
        match self {
            RaceInstruction::UpdateRace(a) => {
                if !text_fits_exec(&a.name) || !text_fits_exec(
                    &a.location,
                ) {
                    return None;
                }
                out.push(0);
                write_meta(&mut out, a);
            },
            RaceInstruction::UpdateGame(a) => {
                if !text_fits_exec(&a.game_url) {
                    return None;
                }
                out.push(1);
                write_game(&mut out, a);
            },
            RaceInstruction::JoinRace(a) => {
                out.push(2);
                write_player(&mut out, &a.player);
            },
        }
        assert(out@ =~= enc_instruction(self@));
        Some(out)
    }
}

} // verus!
