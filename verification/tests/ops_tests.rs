use canvas_vm::{get_operation, Operation, PietColor};

#[test]
fn test_color_from_rgb() {
    assert_eq!(PietColor::from_rgb(0xFF, 0x00, 0x00).unwrap(), PietColor::Red);
    assert_eq!(PietColor::from_rgb(0xFF, 0xFF, 0x00).unwrap(), PietColor::Yellow);
    assert_eq!(PietColor::from_rgb(0x00, 0x00, 0xFF).unwrap(), PietColor::Blue);
    assert_eq!(PietColor::from_rgb(0xFF, 0xFF, 0xFF).unwrap(), PietColor::White);
    assert_eq!(PietColor::from_rgb(0x00, 0x00, 0x00).unwrap(), PietColor::Black);
}

#[test]
fn test_hue_and_lightness() {
    assert_eq!(PietColor::Red.hue(), Some(0));
    assert_eq!(PietColor::LightRed.lightness(), Some(0));
    assert_eq!(PietColor::Red.lightness(), Some(1));
    assert_eq!(PietColor::DarkRed.lightness(), Some(2));
    assert_eq!(PietColor::White.hue(), None);
    assert_eq!(PietColor::Black.hue(), None);
}

#[test]
fn test_operations() {
    assert_eq!(get_operation(0, 1), Some(Operation::Push));
    assert_eq!(get_operation(0, 2), Some(Operation::Pop));
    assert_eq!(get_operation(1, 0), Some(Operation::Add));
    assert_eq!(get_operation(1, 1), Some(Operation::Subtract));
    assert_eq!(get_operation(1, 2), Some(Operation::Multiply));
    assert_eq!(get_operation(2, 0), Some(Operation::Divide));
    assert_eq!(get_operation(4, 0), Some(Operation::Duplicate));
    assert_eq!(get_operation(5, 2), Some(Operation::OutChar));
}

#[test]
fn test_operation_table_complete() {
    // the whole canonical table, hue delta then lightness delta
    let table: [[Option<Operation>; 3]; 6] = [
        [None, Some(Operation::Push), Some(Operation::Pop)],
        [Some(Operation::Add), Some(Operation::Subtract), Some(Operation::Multiply)],
        [Some(Operation::Divide), Some(Operation::Mod), Some(Operation::Not)],
        [Some(Operation::Greater), Some(Operation::Pointer), Some(Operation::Switch)],
        [Some(Operation::Duplicate), Some(Operation::Roll), Some(Operation::InNumber)],
        [Some(Operation::InChar), Some(Operation::OutNumber), Some(Operation::OutChar)],
    ];
    for dh in 0..6i8 {
        for dl in 0..3i8 {
            assert_eq!(get_operation(dh, dl), table[dh as usize][dl as usize]);
        }
    }
    // negative deltas normalize modulo 6 and 3
    assert_eq!(get_operation(-5, 0), get_operation(1, 0));
    assert_eq!(get_operation(0, -2), get_operation(0, 1));
}

#[test]
fn test_operation_round_trip_all_pairs() {
    // every pair of chromatic colors maps through the canonical table entry
    // for its deltas alone
    for hf in 0..6i8 {
        for lf in 0..3i8 {
            for ht in 0..6i8 {
                for lt in 0..3i8 {
                    let dh = ht - hf;
                    let dl = lt - lf;
                    let via_deltas = get_operation(dh, dl);
                    let normalized = get_operation(((dh % 6) + 6) % 6, ((dl % 3) + 3) % 3);
                    assert_eq!(via_deltas, normalized);
                }
            }
        }
    }
}
