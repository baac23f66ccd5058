use precompile_chips::events::{ExecutionRecord, PoseidonEvent, PrecompileEvent};
use precompile_chips::field::{Felt, MODULUS};
use precompile_chips::poseidon::columns::{PoseidonCols, STATE_WIDTH};
use precompile_chips::poseidon::{
    PoseidonChip, FULL_ROUNDS, NUM_COLS, PARTIAL_ROUNDS, POSEIDON_MDS,
    POSEIDON_PARTIAL_CONSTANTS, POSEIDON_ROUND_CONSTANTS,
};

fn one_event_record(input_ptr: u32, output_ptr: u32) -> ExecutionRecord {
    let mut record = ExecutionRecord::new();
    record.add_precompile_event(PrecompileEvent::Poseidon(PoseidonEvent {
        shard: 0,
        clk: 0,
        input_ptr,
        output_ptr,
        input: [1u64, 2u64, 3u64],
    }));
    record
}

fn pow5(x: u64) -> u64 {
    let m = MODULUS as u64;
    let x2 = x * x % m;
    let x4 = x2 * x2 % m;
    x4 * x % m
}

#[test]
fn test_constraints() {
    let chip = PoseidonChip::new();
    let input_record = one_event_record(100, 200);
    let mut output_record = ExecutionRecord::new();
    assert!(input_record.is_wf());
    let rows = chip.generate_rows(&input_record, &mut output_record);
    assert!(chip.check_rows(&rows).is_ok());
}

#[test]
fn test_column_dimensions() {
    assert_eq!(PoseidonCols::default().to_row().len(), NUM_COLS);
    assert_eq!(PoseidonChip::new().width(), NUM_COLS);
}

#[test]
fn test_trace_row_population() {
    let mut cols = PoseidonCols::default();
    let state = [
        Felt::from_canonical_u64(1),
        Felt::from_canonical_u64(2),
        Felt::from_canonical_u64(3),
    ];

    cols.populate_trace_row(0, 0, 0, &state, true);
    assert_eq!(cols.is_real, Felt::one());
    assert_eq!(cols.is_full_round, Felt::one());
    assert_eq!(cols.is_input_op, Felt::one());
    for i in 0..STATE_WIDTH {
        assert_eq!(cols.ark_state[i], state[i].add(cols.round_constants[i]));
    }

    cols.populate_trace_row(0, 1, 4, &state, false);
    assert_eq!(cols.is_full_round, Felt::zero());
    assert_eq!(cols.is_input_op, Felt::zero());
    let x = cols.ark_state[0];
    let expected_sbox = x.square().square().mul(x);
    assert_eq!(cols.sbox_state[0], expected_sbox);
    for i in 1..STATE_WIDTH {
        assert_eq!(cols.sbox_state[i], cols.ark_state[i]);
    }
}

#[test]
fn test_empty_row() {
    let mut cols = PoseidonCols::default();
    cols.populate_empty_row();
    assert_eq!(cols.is_real, Felt::zero());
    assert_eq!(cols.is_memory_op, Felt::zero());
    for i in 0..STATE_WIDTH {
        assert_eq!(cols.state[i], Felt::zero());
        assert_eq!(cols.next_state[i], Felt::zero());
        assert_eq!(cols.ark_state[i], Felt::zero());
        assert_eq!(cols.sbox_state[i], Felt::zero());
        assert_eq!(cols.mix_state[i], Felt::zero());
    }
}

#[test]
fn test_poseidon() {
    let chip = PoseidonChip::new();
    let input_record = one_event_record(0, 0);
    let mut output_record = ExecutionRecord::new();
    let trace = chip.generate_trace(&input_record, &mut output_record);
    let real_rows = (0..trace.height())
        .filter(|&i| PoseidonCols::from_row(&trace.row_slice(i)).is_real == Felt::one())
        .count();
    assert_eq!(real_rows, FULL_ROUNDS + PARTIAL_ROUNDS);
    assert_eq!(trace.width(), NUM_COLS);
}

#[test]
fn test_trace_generation() {
    let chip = PoseidonChip::new();
    let input_record = one_event_record(100, 200);
    let mut output_record = ExecutionRecord::new();
    let trace = chip.generate_trace(&input_record, &mut output_record);

    assert!(trace.height().is_power_of_two());
    assert_eq!(trace.width(), NUM_COLS);

    let first_row = PoseidonCols::from_row(&trace.row_slice(0));
    assert_eq!(first_row.is_real, Felt::one());
    assert_eq!(first_row.round_ctr, Felt::zero());
    assert_eq!(first_row.is_full_round, Felt::one());
    assert_eq!(first_row.state[0], Felt::from_canonical_u64(1));
    assert_eq!(first_row.state[1], Felt::from_canonical_u64(2));
    assert_eq!(first_row.state[2], Felt::from_canonical_u64(3));

    let last_row = PoseidonCols::from_row(&trace.row_slice(FULL_ROUNDS + PARTIAL_ROUNDS - 1));
    assert_eq!(last_row.is_real, Felt::one());
    assert_ne!(last_row.state[0], Felt::zero());
}

#[test]
fn one_permutation_fills_sixty_five_rows_of_a_padded_trace() {
    let chip = PoseidonChip::new();
    let input_record = one_event_record(100, 200);
    let mut output_record = ExecutionRecord::new();
    let rows = chip.generate_rows(&input_record, &mut output_record);
    assert_eq!(rows.len(), 128);
    assert!(output_record.byte_lookups.is_empty());
    for (i, row) in rows.iter().enumerate() {
        assert_eq!(row.nonce, Felt::from_canonical_usize(i));
        if i < 65 {
            assert_eq!(row.is_real, Felt::one());
            assert_eq!(row.round_ctr, Felt::from_canonical_usize(i));
            let dense = i < 4 || i >= 61;
            assert_eq!(row.is_full_round, Felt::from_bool(dense));
            assert_eq!(row.is_input_op, Felt::from_bool(i == 0));
            assert_eq!(row.is_output_op, Felt::from_bool(i == 64));
            assert_eq!(row.input_ptr, Felt::from_canonical_u32(100));
            assert_eq!(row.output_ptr, Felt::from_canonical_u32(200));
        } else {
            assert_eq!(row.is_real, Felt::zero());
            assert_eq!(row.state, [Felt::zero(); 3]);
            assert_eq!(row.round_ctr, Felt::zero());
        }
        if i > 0 && i < 65 {
            assert_eq!(row.state, rows[i - 1].next_state);
        }
    }
    assert_eq!(rows[30].is_full_round, Felt::zero());
    assert_eq!(rows[64].output_value, rows[64].next_state[0]);
}

#[test]
fn first_round_matches_hand_computation() {
    let m = MODULUS as u64;
    let mut cols = PoseidonCols::default();
    let state = [Felt::from_canonical_u32(1), Felt::from_canonical_u32(2), Felt::from_canonical_u32(3)];
    cols.populate_trace_row(7, 9, 0, &state, true);
    assert_eq!(cols.shard.value, 7);
    assert_eq!(cols.clk.value, 9);
    let ark: Vec<u64> = (0..3).map(|i| (state[i].value as u64 + POSEIDON_ROUND_CONSTANTS[0][i] % m) % m).collect();
    let sbox: Vec<u64> = ark.iter().map(|&x| pow5(x)).collect();
    for i in 0..3 {
        assert_eq!(cols.round_constants[i].value as u64, POSEIDON_ROUND_CONSTANTS[0][i] % m);
        assert_eq!(cols.ark_state[i].value as u64, ark[i]);
        assert_eq!(cols.sbox_state[i].value as u64, sbox[i]);
        let mut mix = 0u64;
        for j in 0..3 {
            mix = (mix + sbox[j] * (POSEIDON_MDS[i][j] % m) % m) % m;
        }
        assert_eq!(cols.mix_state[i].value as u64, mix);
        assert_eq!(cols.next_state[i], cols.mix_state[i]);
    }
    assert_eq!(cols.is_memory_op, Felt::one());
    assert_eq!(cols.is_arithmetic, Felt::one());
    assert_eq!(cols.is_binary, Felt::zero());
}

#[test]
fn sparse_round_adds_its_constant_to_the_first_word_only() {
    let m = MODULUS as u64;
    let mut cols = PoseidonCols::default();
    let state = [Felt::from_canonical_u32(5), Felt::from_canonical_u32(6), Felt::from_canonical_u32(7)];
    cols.populate_trace_row(0, 0, 10, &state, false);
    assert_eq!(cols.round_constants[0].value as u64, POSEIDON_PARTIAL_CONSTANTS[6] % m);
    assert_eq!(cols.round_constants[1], Felt::zero());
    assert_eq!(cols.round_constants[2], Felt::zero());
    assert_eq!(cols.ark_state[1], state[1]);
    assert_eq!(cols.sbox_state[2], state[2]);
    assert_eq!(cols.is_memory_op, Felt::zero());
}

#[test]
fn last_dense_rounds_take_the_last_rows_of_the_table() {
    let m = MODULUS as u64;
    let mut cols = PoseidonCols::default();
    let state = [Felt::zero(); 3];
    cols.populate_trace_row(0, 0, 64, &state, true);
    for i in 0..3 {
        assert_eq!(cols.round_constants[i].value as u64, POSEIDON_ROUND_CONSTANTS[7][i] % m);
    }
    assert_eq!(cols.is_output_op, Felt::one());
    assert_eq!(cols.is_memory_op, Felt::one());
}

#[test]
fn a_changed_cell_is_reported_with_its_row() {
    let chip = PoseidonChip::new();
    let input_record = one_event_record(100, 200);
    let mut output_record = ExecutionRecord::new();
    let mut rows = chip.generate_rows(&input_record, &mut output_record);
    rows[17].sbox_state[1] = rows[17].sbox_state[1].add(Felt::one());
    let violation = chip.check_rows(&rows).unwrap_err();
    assert_eq!(violation.row, 17);
    assert_eq!(violation.chip, "Poseidon");
    assert_eq!(chip.name(), "Poseidon");
}

#[test]
fn checking_twice_gives_the_same_verdict() {
    let chip = PoseidonChip::new();
    let input_record = one_event_record(100, 200);
    let mut output_record = ExecutionRecord::new();
    let mut rows = chip.generate_rows(&input_record, &mut output_record);
    assert_eq!(chip.check_rows(&rows).is_ok(), chip.check_rows(&rows).is_ok());
    rows[3].clk = Felt::from_canonical_u32(5);
    let first = chip.check_rows(&rows).unwrap_err();
    let second = chip.check_rows(&rows).unwrap_err();
    assert_eq!(first.row, second.row);
    assert_eq!(first.row, 2);
}

#[test]
fn a_misaligned_pointer_violates_the_memory_constraints() {
    let chip = PoseidonChip::new();
    let input_record = one_event_record(102, 200);
    assert!(!input_record.is_wf());
    let mut output_record = ExecutionRecord::new();
    let rows = chip.generate_rows(&input_record, &mut output_record);
    assert_eq!(chip.check_rows(&rows).unwrap_err().row, 0);
}

#[test]
fn an_empty_shard_has_one_padding_row_and_no_chip() {
    let chip = PoseidonChip::new();
    let input_record = ExecutionRecord::new();
    let mut output_record = ExecutionRecord::new();
    assert!(!chip.included(&input_record));
    let rows = chip.generate_rows(&input_record, &mut output_record);
    assert_eq!(rows.len(), 1);
    assert_eq!(rows[0].is_real, Felt::zero());
    assert!(chip.check_rows(&rows).is_ok());
    assert!(chip.included(&one_event_record(0, 0)));
}

#[test]
fn row_round_trips_through_its_cells() {
    let mut cols = PoseidonCols::default();
    let state = [Felt::from_canonical_u32(11), Felt::from_canonical_u32(12), Felt::from_canonical_u32(13)];
    cols.populate_trace_row(3, 4, 62, &state, true);
    cols.nonce = Felt::from_canonical_u32(99);
    let cells = cols.to_row();
    assert_eq!(cells.len(), 32);
    assert_eq!(cells[3], Felt::from_canonical_u32(99));
    assert_eq!(cells[6], state[0]);
    assert_eq!(PoseidonCols::from_row(&cells).to_row(), cells);
}

#[test]
fn every_flag_is_a_flag_on_padding_rows_too() {
    let chip = PoseidonChip::new();
    let input_record = one_event_record(100, 200);
    let mut output_record = ExecutionRecord::new();
    let rows = chip.generate_rows(&input_record, &mut output_record);
    for (column, row) in [(0, 100), (1, 101), (2, 127)] {
        let mut changed = rows.clone();
        let two = Felt::from_canonical_u32(2);
        match column {
            0 => changed[row].is_full_round = two,
            1 => changed[row].is_input_op = two,
            _ => changed[row].is_output_op = two,
        }
        assert_eq!(chip.check_rows(&changed).unwrap_err().row, row);
    }
    let mut flagged = rows.clone();
    flagged[100].is_full_round = Felt::one();
    assert!(chip.check_rows(&flagged).is_ok());
}
