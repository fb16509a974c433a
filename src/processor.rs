//! Authorisation, the three transitions, and the dispatcher.
use crate::error::RaceError;
use crate::instruction::{
    parse_instruction, InstructionModel, JoinRaceArgs, RaceInstruction, UpdateGameArgs,
    UpdateRaceArgs,
};
use crate::state::{
    roster_view, Account, GameModel, MetaModel, Player, PlayerModel, Pubkey, RaceAccount,
    RecordModel,
};
use crate::wire::{enc_record, parse_record, read_record, record_fits, record_fits_exec, write_record};
use vstd::prelude::*;

verus! {

// ---------------------------------------------------------------------------
// The transitions on record values

/// A metadata update replaces the scheduling and prize fields.
pub open spec fn apply_update_race(r: RecordModel, m: MetaModel) -> RecordModel {
    RecordModel { meta: m, ..r }
}

/// A game-info update replaces the game URL and end date.
pub open spec fn apply_update_game(r: RecordModel, g: GameModel) -> RecordModel {
    RecordModel { game: g, ..r }
}

/// Scanning the roster in order, the error of the first entry that shares the
/// joining player's address (checked first) or slot.
pub open spec fn first_clash(ps: Seq<PlayerModel>, p: PlayerModel) -> Option<RaceError>
    decreases ps.len(),
{
    if ps.len() == 0 {
        None
    } else if ps[0].address == p.address {
        Some(RaceError::PlayerFoundError)
    } else if ps[0].slot == p.slot {
        Some(RaceError::SlotNotAvailableError)
    } else {
        first_clash(ps.drop_first(), p)
    }
}

/// A join starts the roster, or appends to it when neither the address nor
/// the slot is taken.
pub open spec fn apply_join(r: RecordModel, p: PlayerModel) -> Result<RecordModel, RaceError> {
    match r.players {
        None => Ok(RecordModel { players: Some(seq![p]), ..r }),
        Some(ps) => match first_clash(ps, p) {
            Some(e) => Err(e),
            None => Ok(RecordModel { players: Some(ps.push(p)), ..r }),
        },
    }
}

pub open spec fn apply_instruction(r: RecordModel, ix: InstructionModel) -> Result<
    RecordModel,
    RaceError,
> {
    match ix {
        InstructionModel::UpdateRace(m) => Ok(apply_update_race(r, m)),
        InstructionModel::UpdateGame(g) => Ok(apply_update_game(r, g)),
        InstructionModel::JoinRace(p) => apply_join(r, p),
    }
}

// ---------------------------------------------------------------------------
// The account

/// The account bytes after writing `r` over their front, when it fits.
pub open spec fn store(r: RecordModel, data: Seq<u8>) -> Result<Seq<u8>, RaceError> {
    if record_fits(r) && enc_record(r).len() <= data.len() {
        Ok(enc_record(r) + data.subrange(enc_record(r).len() as int, data.len() as int))
    } else {
        Err(RaceError::StorageCapacityExceeded)
    }
}

/// The record in the first account, once it is known to be there and owned
/// by the program.
pub open spec fn load(program_id: Pubkey, accounts: Seq<Account>) -> Result<RecordModel, RaceError> {
    if accounts.len() == 0 {
        Err(RaceError::MissingAccount)
    } else if accounts[0].owner@ != program_id@ {
        Err(RaceError::UnauthorizedOwner)
    } else {
        match parse_record(accounts[0].data@, 0) {
            Some((r, _)) => Ok(r),
            None => Err(RaceError::RecordDecodeFailure),
        }
    }
}

/// The new bytes of the first account after running a decoded instruction.
pub open spec fn outcome(program_id: Pubkey, accounts: Seq<Account>, ix: InstructionModel) -> Result<
    Seq<u8>,
    RaceError,
> {
    match load(program_id, accounts) {
        Err(e) => Err(e),
        Ok(r) => match apply_instruction(r, ix) {
            Err(e) => Err(e),
            Ok(n) => store(n, accounts[0].data@),
        },
    }
}

/// The new bytes of the first account after running instruction bytes.
pub open spec fn dispatch(program_id: Pubkey, accounts: Seq<Account>, data: Seq<u8>) -> Result<
    Seq<u8>,
    RaceError,
> {
    match parse_instruction(data) {
        None => Err(RaceError::MalformedInstruction),
        Some(ix) => outcome(program_id, accounts, ix),
    }
}

/// The accounts after a call relate to those before as `result` says: on
/// success only the first account's bytes change, on failure nothing does.
pub open spec fn settled(
    before: Seq<Account>,
    after: Seq<Account>,
    r: Result<(), RaceError>,
    result: Result<Seq<u8>, RaceError>,
) -> bool {
    match result {
        Ok(bytes) => {
            &&& r is Ok
            &&& after.len() == before.len()
            &&& after[0].owner == before[0].owner
            &&& after[0].data@ == bytes
            &&& forall|k: int| 1 <= k < before.len() ==> after[k] == before[k]
        },
        Err(e) => r == Err::<(), RaceError>(e) && after == before,
    }
}

// ---------------------------------------------------------------------------
// Transitions

/// Overwrites the scheduling and prize fields; the roster is untouched.
pub fn update_race(record: &mut RaceAccount, args: UpdateRaceArgs)
    ensures
        final(record)@ == apply_update_race(old(record)@, args@),
{
    record.status = args.status;
    record.level = args.level;
    record.kind = args.kind;
    record.date = args.date;
    record.name = args.name;
    record.location = args.location;
    record.distance = args.distance;
    record.entry_fee = args.entry_fee;
    record.prize_pool = args.prize_pool;
}

/// Overwrites the game URL and end date only.
pub fn update_game(record: &mut RaceAccount, args: UpdateGameArgs)
    ensures
        final(record)@ == apply_update_game(old(record)@, args@),
{
    record.game_url = args.game_url;
    record.end_date = args.end_date;
}

fn same_key(a: &Pubkey, b: &Pubkey) -> (r: bool)
    ensures
        r == (a@ == b@),
{
    let mut k: usize = 0;
    while k < 32
        invariant
            k <= 32,
            forall|t: int| 0 <= t < k ==> a@[t] == b@[t],
        decreases 32 - k,
    {
        if a[k] != b[k] {
            return false;
        }
        k = k + 1;
    }
    assert(a@ =~= b@);
    true
}

/// The error of the first roster entry that clashes with `p`, in roster order.
fn find_clash(ps: &Vec<Player>, p: &Player) -> (r: Option<RaceError>)
    ensures
        r == first_clash(roster_view(ps@), p@),
{
    let ghost all = roster_view(ps@);
    assert(all.subrange(0, all.len() as int) =~= all);
    let mut i: usize = 0;
    while i < ps.len()
        invariant
            i <= ps@.len(),
            all == roster_view(ps@),
            first_clash(all, p@) == first_clash(all.subrange(i as int, all.len() as int), p@),
        decreases ps.len() - i,
    {
        let ghost rest = all.subrange(i as int, all.len() as int);
        proof {
            assert(rest.drop_first() =~= all.subrange(i + 1, all.len() as int));
            assert(rest[0] == ps@[i as int]@);
        }
        if same_key(&ps[i].address, &p.address) {
            return Some(RaceError::PlayerFoundError);
        }
        if ps[i].slot == p.slot {
            return Some(RaceError::SlotNotAvailableError);
        }
        i = i + 1;
    }
    assert(all.subrange(all.len() as int, all.len() as int).len() == 0);
    None
}

/// Adds `player` to the roster, refusing an address or a slot that is
/// already taken; on refusal the record is unchanged.
pub fn join_race(record: &mut RaceAccount, player: Player) -> (r: Result<(), RaceError>)
    ensures
        match apply_join(old(record)@, player@) {
            Ok(n) => r is Ok && final(record)@ == n,
            Err(e) => r == Err::<(), RaceError>(e) && final(record)@ == old(record)@,
        },
{
    let clash = match &record.players {
        None => None,
        Some(ps) => find_clash(ps, &player),
    };
    if let Some(e) = clash {
        return Err(e);
    }
    let mut roster = match record.players.take() {
        Some(v) => v,
        None => Vec::new(),
    };
    let ghost before = roster@;
    roster.push(player);
    assert(roster_view(roster@) =~= roster_view(before).push(player@));
    record.players = Some(roster);
    proof {
        if old(record).players is None {
            assert(roster_view(roster@) =~= seq![player@]);
        }
    }
    Ok(())
}

// ---------------------------------------------------------------------------
// Accounts

/// Succeeds exactly when the account is owned by `program_id`.
pub fn authorize(program_id: &Pubkey, account: &Account) -> (r: Result<(), RaceError>)
    ensures
        r is Ok <==> account.owner@ == program_id@,
        r is Err ==> r == Err::<(), RaceError>(RaceError::UnauthorizedOwner),
{
    if same_key(&account.owner, program_id) {
        Ok(())
    } else {
        Err(RaceError::UnauthorizedOwner)
    }
}

impl RaceAccount {
    /// Decodes the record from the front of the account's bytes; later bytes
    /// are ignored.
    pub fn from_account_info(a: &Account) -> (r: Result<RaceAccount, RaceError>)
        ensures
            match parse_record(a.data@, 0) {
                Some((m, _)) => r matches Ok(x) && x@ == m,
                None => r == Err::<RaceAccount, RaceError>(RaceError::RecordDecodeFailure),
            },
    {
        match read_record(a.data.as_slice(), 0) {
            Some((x, _)) => Ok(x),
            None => Err(RaceError::RecordDecodeFailure),
        }
    }

    /// The stored form of the record, or `None` when a text field or the
    /// roster is longer than the stored form can count.
    pub fn try_to_vec(&self) -> (r: Option<Vec<u8>>)
        ensures
            match r {
                Some(v) => record_fits(self@) && v@ == enc_record(self@),
                None => !record_fits(self@),
            },
    {
        if !record_fits_exec(self) {
            return None;
        }
        let mut out: Vec<u8> = Vec::new();
        write_record(&mut out, self);
        assert(out@ =~= enc_record(self@));
        Some(out)
    }

    /// The account bytes with the record written over their front, or
    /// `StorageCapacityExceeded` when it does not fit.
    pub fn stored_over(&self, data: &[u8]) -> (r: Result<Vec<u8>, RaceError>)
        ensures
            match store(self@, data@) {
                Ok(b) => r matches Ok(v) && v@ == b,
                Err(e) => r == Err::<Vec<u8>, RaceError>(e),
            },
    {
        let mut out = match self.try_to_vec() {
            Some(v) => v,
            None => return Err(RaceError::StorageCapacityExceeded),
        };
        if out.len() > data.len() {
            return Err(RaceError::StorageCapacityExceeded);
        }
        let ghost n = out@.len() as int;
        let mut k: usize = out.len();
        while k < data.len()
            invariant
                0 <= n <= k <= data@.len(),
                n == enc_record(self@).len(),
                out@ == enc_record(self@) + data@.subrange(n, k as int),
            decreases data.len() - k,
        {
            proof {
                assert(data@.subrange(n, k + 1) =~= data@.subrange(n, k as int).push(
                    data@[k as int],
                ));
            }
            out.push(data[k]);
            k = k + 1;
        }
        Ok(out)
    }

    /// Writes the record over the front of `data`, leaving later bytes as
    /// they were; on failure `data` is unchanged.
    pub fn serialize(&self, data: &mut Vec<u8>) -> (r: Result<(), RaceError>)
        ensures
            match store(self@, old(data)@) {
                Ok(b) => r is Ok && final(data)@ == b,
                Err(e) => r == Err::<(), RaceError>(e) && final(data)@ == old(data)@,
            },
    {
        match self.stored_over(data.as_slice()) {
            Ok(v) => {
                *data = v;
                Ok(())
            },
            Err(e) => Err(e),
        }
    }
}

fn load_record(program_id: &Pubkey, accounts: &Vec<Account>) -> (r: Result<RaceAccount, RaceError>)
    ensures
        match load(*program_id, accounts@) {
            Ok(m) => r matches Ok(x) && x@ == m,
            Err(e) => r == Err::<RaceAccount, RaceError>(e),
        },
{
    if accounts.len() == 0 {
        return Err(RaceError::MissingAccount);
    }
    match authorize(program_id, &accounts[0]) {
        Ok(()) => {},
        Err(e) => return Err(e),
    }
    RaceAccount::from_account_info(&accounts[0])
}

fn save_record(accounts: &mut Vec<Account>, record: &RaceAccount) -> (r: Result<(), RaceError>)
    requires
        old(accounts)@.len() > 0,
    ensures
        settled(old(accounts)@, final(accounts)@, r, store(record@, old(accounts)@[0].data@)),
{
    let bytes = match record.stored_over(accounts[0].data.as_slice()) {
        Ok(v) => v,
        Err(e) => return Err(e),
    };
    let owner = accounts[0].owner;
    accounts.set(0, Account { owner, data: bytes });
    Ok(())
}

/// Runs a metadata update against the first account.
pub fn process_update_race(
    program_id: &Pubkey,
    accounts: &mut Vec<Account>,
    args: UpdateRaceArgs,
) -> (r: Result<(), RaceError>)
    ensures
        settled(
            old(accounts)@,
            final(accounts)@,
            r,
            outcome(*program_id, old(accounts)@, InstructionModel::UpdateRace(args@)),
        ),
{
    let mut record = match load_record(program_id, accounts) {
        Ok(x) => x,
        Err(e) => return Err(e),
    };
    update_race(&mut record, args);
    save_record(accounts, &record)
}

/// Runs a game-info update against the first account.
pub fn process_update_game(
    program_id: &Pubkey,
    accounts: &mut Vec<Account>,
    args: UpdateGameArgs,
) -> (r: Result<(), RaceError>)
    ensures
        settled(
            old(accounts)@,
            final(accounts)@,
            r,
            outcome(*program_id, old(accounts)@, InstructionModel::UpdateGame(args@)),
        ),
{
    let mut record = match load_record(program_id, accounts) {
        Ok(x) => x,
        Err(e) => return Err(e),
    };
    update_game(&mut record, args);
    save_record(accounts, &record)
}

/// Runs a join against the first account.
pub fn process_join_race(
    program_id: &Pubkey,
    accounts: &mut Vec<Account>,
    args: JoinRaceArgs,
) -> (r: Result<(), RaceError>)
    ensures
        settled(
            old(accounts)@,
            final(accounts)@,
            r,
            outcome(*program_id, old(accounts)@, InstructionModel::JoinRace(args.player@)),
        ),
{
    let mut record = match load_record(program_id, accounts) {
        Ok(x) => x,
        Err(e) => return Err(e),
    };
    match join_race(&mut record, args.player) {
        Ok(()) => {},
        Err(e) => return Err(e),
    }
    save_record(accounts, &record)
}

/// The entry point: decodes the instruction and runs it against the first
/// account.
pub fn process_instruction(
    program_id: &Pubkey,
    accounts: &mut Vec<Account>,
    instruction_data: &[u8],
) -> (r: Result<(), RaceError>)
    ensures
        settled(old(accounts)@, final(accounts)@, r, dispatch(*program_id, old(accounts)@, instruction_data@)),
        parse_instruction(instruction_data@) is Some && old(accounts)@.len() > 0
            && old(accounts)@[0].owner@ != program_id@ ==> r == Err::<(), RaceError>(
            RaceError::UnauthorizedOwner,
        ) && final(accounts)@ == old(accounts)@,
{
    let instruction = match RaceInstruction::try_from_slice(instruction_data) {
        Ok(ix) => ix,
        Err(e) => return Err(e),
    };
    match instruction {
        RaceInstruction::UpdateRace(args) => process_update_race(program_id, accounts, args),
        RaceInstruction::UpdateGame(args) => process_update_game(program_id, accounts, args),
        RaceInstruction::JoinRace(args) => process_join_race(program_id, accounts, args),
    }
}

} // verus!
