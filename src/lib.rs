//! State-transition processor for a single race record held in an account.
//!
//! The record is stored in the account's bytes in a fixed binary layout
//! (`wire`); instructions arrive as bytes in the same layout family
//! (`instruction`); `processor` authorises, decodes, applies one of three
//! transitions and writes the record back.
mod error;
mod instruction;
mod laws;
mod processor;
mod state;
mod wire;

pub use error::RaceError;
pub use instruction::{enc_instruction, instruction_fits, parse_instruction, InstructionModel};
pub use laws::{
    join_all, lemma_authorization_gate, lemma_decode_encode, lemma_encode_decode,
    lemma_instruction_round_trip, lemma_join_keeps_roster_distinct,
    lemma_joins_keep_roster_distinct, lemma_store_of_load, lemma_update_race_idempotent,
    lemma_update_race_idempotent_on_account, roster_distinct, roster_ok,
};
pub use processor::{
    apply_instruction, apply_join, apply_update_game, apply_update_race, authorize, dispatch,
    first_clash, join_race, load, outcome, process_instruction, process_join_race,
    process_update_game, process_update_race, settled, store, update_game, update_race,
};
pub use instruction::{JoinRaceArgs, RaceInstruction, UpdateGameArgs, UpdateRaceArgs};
pub use state::{
    roster_opt_view, roster_view, Account, GameModel, MetaModel, Player, PlayerModel, Pubkey,
    RaceAccount, RecordModel,
};
pub use wire::{enc_record, parse_record, record_fits};
