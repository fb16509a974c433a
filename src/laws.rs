//! Properties that hold across calls.
use crate::error::RaceError;
use crate::instruction::{enc_instruction, instruction_fits, parse_instruction, InstructionModel};
use crate::processor::{
    apply_join, apply_update_race, dispatch, first_clash, outcome, settled, store,
};
use crate::state::{Account, MetaModel, PlayerModel, Pubkey, RecordModel};
use crate::wire::{
    enc_game, enc_meta, enc_player, enc_record, lemma_game_wire, lemma_meta_wire, lemma_player_wire, lemma_record_wire,
    lemma_split, lemma_u8_wire, parse_record, record_fits,
};
use vstd::prelude::*;

verus! {

/// No two roster entries share an address, and no two share a slot.
pub open spec fn roster_distinct(ps: Seq<PlayerModel>) -> bool {
    forall|i: int, j: int|
        0 <= i < j < ps.len() ==> #[trigger] ps[i].address != #[trigger] ps[j].address
            && ps[i].slot != ps[j].slot
}

/// The roster of a record is absent or has distinct entries.
pub open spec fn roster_ok(r: RecordModel) -> bool {
    match r.players {
        None => true,
        Some(ps) => roster_distinct(ps),
    }
}

/// Joins `ps` one after another, stopping at the first refusal.
pub open spec fn join_all(r: RecordModel, ps: Seq<PlayerModel>) -> Result<RecordModel, RaceError>
    decreases ps.len(),
{
    if ps.len() == 0 {
        Ok(r)
    } else {
        match join_all(r, ps.drop_last()) {
            Err(e) => Err(e),
            Ok(q) => apply_join(q, ps.last()),
        }
    }
}

/// Applying the same metadata update twice gives the same record as applying
/// it once.
pub proof fn lemma_update_race_idempotent(r: RecordModel, m: MetaModel)
    ensures
        apply_update_race(apply_update_race(r, m), m) == apply_update_race(r, m),
{
}

/// Running the same metadata update a second time on the account it has just
/// updated succeeds and leaves the account's bytes as the first run left them.
pub proof fn lemma_update_race_idempotent_on_account(
    program_id: Pubkey,
    accounts: Seq<Account>,
    m: MetaModel,
    after: Seq<Account>,
)
    requires
        outcome(program_id, accounts, InstructionModel::UpdateRace(m)) is Ok,
        settled(
            accounts,
            after,
            Ok(()),
            outcome(program_id, accounts, InstructionModel::UpdateRace(m)),
        ),
    ensures
        outcome(program_id, after, InstructionModel::UpdateRace(m)) == outcome(
            program_id,
            accounts,
            InstructionModel::UpdateRace(m),
        ),
{
    let data = accounts[0].data@;
    let r0 = parse_record(data, 0).unwrap().0;
    let r1 = apply_update_race(r0, m);
    let e = enc_record(r1);
    let d1 = after[0].data@;
    assert(d1 == e + data.subrange(e.len() as int, data.len() as int));
    assert(d1.subrange(0, e.len() as int) =~= e);
    lemma_record_wire(d1, 0, r1);
    assert(d1.subrange(e.len() as int, d1.len() as int) =~= data.subrange(
        e.len() as int,
        data.len() as int,
    ));
}

proof fn lemma_no_clash(ps: Seq<PlayerModel>, p: PlayerModel)
    requires
        first_clash(ps, p) is None,
    ensures
        forall|k: int|
            #![trigger ps[k]]
            0 <= k < ps.len() ==> ps[k].address != p.address && ps[k].slot != p.slot,
    decreases ps.len(),
{
    if ps.len() > 0 {
        lemma_no_clash(ps.drop_first(), p);
        assert forall|k: int| #![trigger ps[k]]
            0 <= k < ps.len() implies ps[k].address != p.address && ps[k].slot != p.slot by {
            if k > 0 {
                let rest = ps.drop_first();
                assert(ps[k] == rest[k - 1]);
                assert(rest[k - 1].address != p.address && rest[k - 1].slot != p.slot);
            }
        }
    }
}

/// A successful join keeps the roster's addresses and slots distinct.
pub proof fn lemma_join_keeps_roster_distinct(r: RecordModel, p: PlayerModel)
    requires
        roster_ok(r),
        apply_join(r, p) is Ok,
    ensures
        roster_ok(apply_join(r, p).unwrap()),
        apply_join(r, p).unwrap().players is Some,
{
    match r.players {
        None => {},
        Some(ps) => {
            lemma_no_clash(ps, p);
            let q = ps.push(p);
            assert forall|i: int, j: int| 0 <= i < j < q.len() implies #[trigger] q[i].address
                != #[trigger] q[j].address && q[i].slot != q[j].slot by {
                if j == ps.len() {
                    assert(q[i] == ps[i]);
                } else {
                    assert(q[i] == ps[i] && q[j] == ps[j]);
                }
            }
        },
    }
}

/// After any run of joins that all succeed, starting from a record whose
/// roster is absent or distinct, the roster's addresses are pairwise distinct
/// and so are its slots.
pub proof fn lemma_joins_keep_roster_distinct(r: RecordModel, ps: Seq<PlayerModel>)
    requires
        roster_ok(r),
        join_all(r, ps) is Ok,
    ensures
        roster_ok(join_all(r, ps).unwrap()),
        ps.len() > 0 ==> join_all(r, ps).unwrap().players is Some,
    decreases ps.len(),
{
    if ps.len() > 0 {
        lemma_joins_keep_roster_distinct(r, ps.drop_last());
        lemma_join_keeps_roster_distinct(join_all(r, ps.drop_last()).unwrap(), ps.last());
    }
}

/// For any well-formed instruction, when the first account is not owned by
/// the program the call fails with `UnauthorizedOwner` and every account,
/// bytes included, is left as it was.
pub proof fn lemma_authorization_gate(program_id: Pubkey, accounts: Seq<Account>, data: Seq<u8>)
    requires
        parse_instruction(data) is Some,
        accounts.len() > 0,
        accounts[0].owner@ != program_id@,
    ensures
        dispatch(program_id, accounts, data) == Err::<Seq<u8>, RaceError>(
            RaceError::UnauthorizedOwner,
        ),
        forall|after: Seq<Account>, r: Result<(), RaceError>|
            #[trigger] settled(accounts, after, r, dispatch(program_id, accounts, data)) ==> r
                == Err::<(), RaceError>(RaceError::UnauthorizedOwner) && after == accounts,
{
}

/// Decoding the stored form of a representable record gives that record
/// back, having read all of it.
pub proof fn lemma_decode_encode(r: RecordModel)
    requires
        record_fits(r),
    ensures
        parse_record(enc_record(r), 0) == Some((r, enc_record(r).len() as int)),
{
    let b = enc_record(r);
    assert(b.subrange(0, b.len() as int) =~= b);
    lemma_record_wire(b, 0, r);
}

/// Bytes that hold exactly one stored record are the stored form of the
/// record decoded from them.
pub proof fn lemma_encode_decode(b: Seq<u8>)
    requires
        parse_record(b, 0) matches Some((_, n)) && n == b.len(),
    ensures
        record_fits(parse_record(b, 0).unwrap().0),
        enc_record(parse_record(b, 0).unwrap().0) == b,
{
    let r = parse_record(b, 0).unwrap().0;
    lemma_record_wire(b, 0, r);
    assert(b.subrange(0, b.len() as int) =~= b);
}

/// Writing back the record just decoded from account bytes leaves those
/// bytes as they were.
pub proof fn lemma_store_of_load(data: Seq<u8>)
    requires
        parse_record(data, 0) is Some,
    ensures
        store(parse_record(data, 0).unwrap().0, data) == Ok::<Seq<u8>, RaceError>(data),
{
    let (r, n) = parse_record(data, 0).unwrap();
    lemma_record_wire(data, 0, r);
    assert(enc_record(r) + data.subrange(n, data.len() as int) =~= data);
}

/// Decoding the wire form of a representable instruction gives that
/// instruction back, and bytes that decode are the wire form of what they
/// decode to.
pub proof fn lemma_instruction_round_trip(ix: InstructionModel, b: Seq<u8>)
    ensures
        instruction_fits(ix) ==> parse_instruction(enc_instruction(ix)) == Some(ix),
        parse_instruction(b) matches Some(jx) ==> instruction_fits(jx) && enc_instruction(jx)
            == b,
{
    let e = enc_instruction(ix);
    if instruction_fits(ix) {
        assert(e.subrange(0, e.len() as int) =~= e);
        lemma_u8_wire(e, 0, 0);
        match ix {
            InstructionModel::UpdateRace(m) => {
                lemma_split(e, 0, seq![0u8], enc_meta(m));
                lemma_meta_wire(e, 1, m);
            },
            InstructionModel::UpdateGame(g) => {
                lemma_split(e, 0, seq![1u8], enc_game(g));
                lemma_game_wire(e, 1, g);
            },
            InstructionModel::JoinRace(p) => {
                lemma_split(e, 0, seq![2u8], enc_player(p));
                lemma_player_wire(e, 1, p);
            },
        }
    }
    if parse_instruction(b) is Some {
        lemma_u8_wire(b, 0, 0);
        let tag = b[0];
        match parse_instruction(b).unwrap() {
            InstructionModel::UpdateRace(m) => lemma_meta_wire(b, 1, m),
            InstructionModel::UpdateGame(g) => lemma_game_wire(b, 1, g),
            InstructionModel::JoinRace(p) => lemma_player_wire(b, 1, p),
        }
        assert(b =~= seq![tag] + b.subrange(1, b.len() as int));
    }
}

} // verus!
