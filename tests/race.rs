use race::{
    authorize, join_race, process_instruction, process_join_race, process_update_game,
    process_update_race, update_game, update_race, Account, JoinRaceArgs, Player, Pubkey,
    RaceAccount, RaceError, RaceInstruction, UpdateGameArgs, UpdateRaceArgs,
};

const PROGRAM: Pubkey = [7u8; 32];
const ADDR_A: Pubkey = [0xAAu8; 32];
const ADDR_B: Pubkey = [0xBBu8; 32];

fn record(players: Option<Vec<Player>>) -> RaceAccount {
    RaceAccount {
        status: 1,
        level: 2,
        kind: 3,
        date: 1_000,
        name: "Derby".to_string(),
        location: "Track".to_string(),
        distance: 400,
        entry_fee: 5,
        prize_pool: 50,
        game_url: "http://old".to_string(),
        end_date: 2_000,
        players,
    }
}

fn account(r: &RaceAccount, spare: usize) -> Account {
    let mut data = r.try_to_vec().unwrap();
    data.extend(std::iter::repeat(0u8).take(spare));
    Account { owner: PROGRAM, data }
}

fn stored(a: &Account) -> RaceAccount {
    RaceAccount::from_account_info(a).unwrap()
}

fn join_bytes(address: Pubkey, slot: u8) -> Vec<u8> {
    RaceInstruction::JoinRace(JoinRaceArgs { player: Player { address, slot } })
        .try_to_vec()
        .unwrap()
}

fn meta_args() -> UpdateRaceArgs {
    UpdateRaceArgs {
        status: 9,
        level: 8,
        kind: 7,
        date: 123_456_789,
        name: "Grand Prix".to_string(),
        location: "Circuit".to_string(),
        distance: 1_200,
        entry_fee: 10,
        prize_pool: 900,
    }
}

#[test]
fn test_sanity() {
    let program_id: Pubkey = [0u8; 32];
    let owner: Pubkey = [0u8; 32];
    let data = vec![0u8; std::mem::size_of::<u32>()];
    let mut accounts = vec![Account { owner, data: data.clone() }];
    let instruction_data: Vec<u8> = Vec::new();
    assert_eq!(
        RaceAccount::from_account_info(&accounts[0]).unwrap_err(),
        RaceError::RecordDecodeFailure
    );
    assert_eq!(
        process_instruction(&program_id, &mut accounts, &instruction_data),
        Err(RaceError::MalformedInstruction)
    );
    assert_eq!(accounts[0].data, data);
}

#[test]
fn join_into_empty_roster_starts_it() {
    let mut accounts = vec![account(&record(None), 64)];
    let r = process_instruction(&PROGRAM, &mut accounts, &join_bytes(ADDR_A, 3));
    assert_eq!(r, Ok(()));
    assert_eq!(stored(&accounts[0]).players, Some(vec![Player { address: ADDR_A, slot: 3 }]));
}

#[test]
fn join_with_taken_address_is_refused() {
    let mut accounts = vec![account(&record(Some(vec![Player { address: ADDR_A, slot: 3 }])), 64)];
    let before = accounts[0].data.clone();
    let r = process_instruction(&PROGRAM, &mut accounts, &join_bytes(ADDR_A, 5));
    assert_eq!(r, Err(RaceError::PlayerFoundError));
    assert_eq!(accounts[0].data, before);
    assert_eq!(stored(&accounts[0]).players, Some(vec![Player { address: ADDR_A, slot: 3 }]));
}

#[test]
fn join_with_taken_slot_is_refused() {
    let mut accounts = vec![account(&record(Some(vec![Player { address: ADDR_A, slot: 3 }])), 64)];
    let before = accounts[0].data.clone();
    let r = process_instruction(&PROGRAM, &mut accounts, &join_bytes(ADDR_B, 3));
    assert_eq!(r, Err(RaceError::SlotNotAvailableError));
    assert_eq!(accounts[0].data, before);
}

#[test]
fn join_with_free_address_and_slot_appends() {
    let mut accounts = vec![account(&record(Some(vec![Player { address: ADDR_A, slot: 3 }])), 64)];
    let r = process_instruction(&PROGRAM, &mut accounts, &join_bytes(ADDR_B, 7));
    assert_eq!(r, Ok(()));
    assert_eq!(
        stored(&accounts[0]).players,
        Some(vec![Player { address: ADDR_A, slot: 3 }, Player { address: ADDR_B, slot: 7 }])
    );
}

#[test]
fn game_update_changes_only_game_fields() {
    let mut accounts = vec![account(&record(None), 64)];
    let ix = RaceInstruction::UpdateGame(UpdateGameArgs {
        game_url: "http://x".to_string(),
        end_date: 100,
    });
    let r = process_instruction(&PROGRAM, &mut accounts, &ix.try_to_vec().unwrap());
    assert_eq!(r, Ok(()));
    let after = stored(&accounts[0]);
    assert_eq!(after.game_url, "http://x");
    assert_eq!(after.end_date, 100);
    assert_eq!(after.name, "Derby");
    assert_eq!(after.location, "Track");
    assert_eq!(after.date, 1_000);
    assert_eq!(after.players, None);
}

#[test]
fn unknown_variant_is_malformed() {
    let mut accounts = vec![account(&record(None), 64)];
    let before = accounts[0].data.clone();
    let mut bytes = join_bytes(ADDR_A, 3);
    bytes[0] = 3;
    assert_eq!(
        process_instruction(&PROGRAM, &mut accounts, &bytes),
        Err(RaceError::MalformedInstruction)
    );
    assert_eq!(accounts[0].data, before);
    assert_eq!(RaceInstruction::try_from_slice(&[9u8]).unwrap_err(), RaceError::MalformedInstruction);
}

#[test]
fn trailing_instruction_bytes_are_malformed() {
    let mut bytes = join_bytes(ADDR_A, 3);
    assert!(RaceInstruction::try_from_slice(&bytes).is_ok());
    bytes.push(0);
    assert_eq!(RaceInstruction::try_from_slice(&bytes).unwrap_err(), RaceError::MalformedInstruction);
    bytes.truncate(10);
    assert_eq!(RaceInstruction::try_from_slice(&bytes).unwrap_err(), RaceError::MalformedInstruction);
}

#[test]
fn join_instruction_wire_form() {
    let bytes = join_bytes(ADDR_B, 7);
    let mut expected = vec![2u8];
    expected.extend_from_slice(&ADDR_B);
    expected.push(7);
    assert_eq!(bytes, expected);
}

#[test]
fn metadata_update_twice_equals_once() {
    let mut once = record(Some(vec![Player { address: ADDR_A, slot: 1 }]));
    update_race(&mut once, meta_args());
    let mut twice = record(Some(vec![Player { address: ADDR_A, slot: 1 }]));
    update_race(&mut twice, meta_args());
    update_race(&mut twice, meta_args());
    assert_eq!(once.try_to_vec(), twice.try_to_vec());
    assert_eq!(once.name, "Grand Prix");
    assert_eq!(once.kind, 7);
    assert_eq!(once.players, Some(vec![Player { address: ADDR_A, slot: 1 }]));
}

#[test]
fn metadata_update_through_account() {
    let mut accounts = vec![account(&record(None), 64)];
    assert_eq!(process_update_race(&PROGRAM, &mut accounts, meta_args()), Ok(()));
    let first = accounts[0].data.clone();
    assert_eq!(process_update_race(&PROGRAM, &mut accounts, meta_args()), Ok(()));
    assert_eq!(accounts[0].data, first);
    let after = stored(&accounts[0]);
    assert_eq!(after.status, 9);
    assert_eq!(after.level, 8);
    assert_eq!(after.kind, 7);
    assert_eq!(after.date, 123_456_789);
    assert_eq!(after.location, "Circuit");
    assert_eq!(after.distance, 1_200);
    assert_eq!(after.entry_fee, 10);
    assert_eq!(after.prize_pool, 900);
    assert_eq!(after.game_url, "http://old");
}

#[test]
fn successful_joins_keep_roster_distinct() {
    let mut r = record(None);
    let tries = [(1u8, 1u8), (2, 2), (1, 3), (3, 2), (4, 4), (5, 5)];
    for (a, s) in tries.iter() {
        let _ = join_race(&mut r, Player { address: [*a; 32], slot: *s });
    }
    let players = r.players.unwrap();
    assert_eq!(players.len(), 4);
    for i in 0..players.len() {
        for j in (i + 1)..players.len() {
            assert_ne!(players[i].address, players[j].address);
            assert_ne!(players[i].slot, players[j].slot);
        }
    }
}

#[test]
fn first_clash_in_roster_order_decides_the_error() {
    let roster = vec![Player { address: ADDR_B, slot: 3 }, Player { address: ADDR_A, slot: 9 }];
    let mut r = record(Some(roster.clone()));
    assert_eq!(
        join_race(&mut r, Player { address: ADDR_A, slot: 3 }),
        Err(RaceError::SlotNotAvailableError)
    );
    assert_eq!(r.players, Some(roster));
}

#[test]
fn foreign_owner_is_refused_and_bytes_kept() {
    let mut a = account(&record(None), 64);
    a.owner = ADDR_A;
    let before = a.data.clone();
    let mut accounts = vec![a];
    assert_eq!(
        process_instruction(&PROGRAM, &mut accounts, &join_bytes(ADDR_B, 1)),
        Err(RaceError::UnauthorizedOwner)
    );
    assert_eq!(accounts[0].data, before);
    assert_eq!(accounts[0].owner, ADDR_A);
    assert_eq!(authorize(&PROGRAM, &accounts[0]), Err(RaceError::UnauthorizedOwner));
}

#[test]
fn foreign_owner_with_corrupt_data_is_refused_before_decoding() {
    let mut accounts = vec![Account { owner: ADDR_A, data: vec![0xFF; 8] }];
    assert_eq!(
        process_update_game(
            &PROGRAM,
            &mut accounts,
            UpdateGameArgs { game_url: "u".to_string(), end_date: 1 }
        ),
        Err(RaceError::UnauthorizedOwner)
    );
}

#[test]
fn no_account_is_missing_account() {
    let mut accounts: Vec<Account> = Vec::new();
    assert_eq!(
        process_instruction(&PROGRAM, &mut accounts, &join_bytes(ADDR_A, 1)),
        Err(RaceError::MissingAccount)
    );
    assert_eq!(
        process_join_race(
            &PROGRAM,
            &mut accounts,
            JoinRaceArgs { player: Player { address: ADDR_A, slot: 1 } }
        ),
        Err(RaceError::MissingAccount)
    );
}

#[test]
fn corrupt_record_is_decode_failure() {
    let mut accounts = vec![Account { owner: PROGRAM, data: vec![0xFF; 8] }];
    assert_eq!(
        process_instruction(&PROGRAM, &mut accounts, &join_bytes(ADDR_A, 1)),
        Err(RaceError::RecordDecodeFailure)
    );
    assert_eq!(accounts[0].data, vec![0xFF; 8]);
}

#[test]
fn bad_roster_tag_is_decode_failure() {
    let mut data = record(None).try_to_vec().unwrap();
    let last = data.len() - 1;
    data[last] = 2;
    let a = Account { owner: PROGRAM, data };
    assert_eq!(RaceAccount::from_account_info(&a).unwrap_err(), RaceError::RecordDecodeFailure);
}

#[test]
fn invalid_utf8_text_is_decode_failure() {
    let mut data = record(None).try_to_vec().unwrap();
    // status, level, kind, date (8), then the name's count (4) and its bytes
    data[3 + 8 + 4] = 0xFF;
    let a = Account { owner: PROGRAM, data };
    assert_eq!(RaceAccount::from_account_info(&a).unwrap_err(), RaceError::RecordDecodeFailure);
}

#[test]
fn multibyte_text_round_trips() {
    let mut r = record(None);
    r.name = "Café ✓".to_string();
    let bytes = r.try_to_vec().unwrap();
    assert_eq!(&bytes[11..15], &(r.name.len() as u32).to_le_bytes());
    let back = RaceAccount::from_account_info(&Account { owner: PROGRAM, data: bytes }).unwrap();
    assert_eq!(back.name, "Café ✓");
}

#[test]
fn growing_past_capacity_is_refused() {
    let mut accounts = vec![account(&record(None), 0)];
    let before = accounts[0].data.clone();
    assert_eq!(
        process_instruction(&PROGRAM, &mut accounts, &join_bytes(ADDR_A, 1)),
        Err(RaceError::StorageCapacityExceeded)
    );
    assert_eq!(accounts[0].data, before);
}

#[test]
fn write_keeps_trailing_bytes() {
    let r = record(None);
    let len = r.try_to_vec().unwrap().len();
    let mut data = vec![0x5Au8; len + 10];
    r.serialize(&mut data).unwrap();
    assert_eq!(&data[len..], &[0x5Au8; 10]);
    assert_eq!(stored(&Account { owner: PROGRAM, data }).name, "Derby");
}

#[test]
fn record_round_trips_both_ways() {
    let r = record(Some(vec![Player { address: ADDR_A, slot: 3 }, Player { address: ADDR_B, slot: 7 }]));
    let bytes = r.try_to_vec().unwrap();
    let back = stored(&Account { owner: PROGRAM, data: bytes.clone() });
    assert_eq!(back.try_to_vec().unwrap(), bytes);
    assert_eq!(back.players, r.players);
    assert_eq!(back.game_url, r.game_url);
    assert_eq!(back.end_date, r.end_date);
}

#[test]
fn record_layout_matches_borsh() {
    let r = record(Some(vec![Player { address: ADDR_A, slot: 3 }]));
    let expected = borsh::to_vec(&(
        1u8,
        2u8,
        3u8,
        1_000u64,
        "Derby".to_string(),
        "Track".to_string(),
        400u16,
        5u16,
        50u16,
        "http://old".to_string(),
        2_000u64,
        Some(vec![(ADDR_A, 3u8)]),
    ))
    .unwrap();
    assert_eq!(r.try_to_vec().unwrap(), expected);
    let none = borsh::to_vec(&(
        1u8,
        2u8,
        3u8,
        1_000u64,
        "Derby".to_string(),
        "Track".to_string(),
        400u16,
        5u16,
        50u16,
        "http://old".to_string(),
        2_000u64,
        Option::<Vec<(Pubkey, u8)>>::None,
    ))
    .unwrap();
    assert_eq!(record(None).try_to_vec().unwrap(), none);
}

#[test]
fn instruction_layout_matches_borsh() {
    let ix = RaceInstruction::UpdateRace(meta_args());
    let expected = borsh::to_vec(&(
        0u8,
        (9u8, 8u8, 7u8, 123_456_789u64, "Grand Prix".to_string(), "Circuit".to_string()),
        (1_200u16, 10u16, 900u16),
    ))
    .unwrap();
    let bytes = ix.try_to_vec().unwrap();
    assert_eq!(bytes, expected);
    match RaceInstruction::try_from_slice(&bytes).unwrap() {
        RaceInstruction::UpdateRace(a) => assert_eq!(a, meta_args()),
        _ => panic!("wrong variant"),
    }
}

#[test]
fn date_is_little_endian() {
    let bytes = record(None).try_to_vec().unwrap();
    assert_eq!(&bytes[3..11], &[0xE8, 0x03, 0, 0, 0, 0, 0, 0]);
}

#[test]
fn direct_game_update() {
    let mut r = record(None);
    update_game(&mut r, UpdateGameArgs { game_url: "g".to_string(), end_date: 5 });
    assert_eq!(r.game_url, "g");
    assert_eq!(r.end_date, 5);
    assert_eq!(r.name, "Derby");
}

#[test]
fn error_messages() {
    assert_eq!(RaceError::PlayerFoundError.message(), "Player Already exists!");
    assert_eq!(RaceError::SlotNotAvailableError.message(), "Slot not available!");
    assert!(!RaceError::StorageCapacityExceeded.message().is_empty());
}
