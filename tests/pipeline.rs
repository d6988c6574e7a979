use pairings::{
    build_pairing_model, decode_solution, index_pairings, parse_shorthand_args,
    selection_satisfies, visualize_solution_matrix, ConstraintKind, PairingError, Rgb, Term,
};

fn strings(args: &[&str]) -> Vec<String> {
    args.iter().map(|s| s.to_string()).collect()
}

fn selection(n: usize, chosen: &[(usize, usize)]) -> Vec<Vec<bool>> {
    let mut v = vec![vec![false; n]; n];
    for &(i, j) in chosen {
        v[i][j] = true;
    }
    v
}

const WHITE: Rgb = Rgb { r: 255, g: 255, b: 255 };
const BLUE: Rgb = Rgb { r: 0, g: 100, b: 200 };

fn grey(v: u8) -> Rgb {
    Rgb { r: v, g: v, b: v }
}

#[test]
fn shorthand_single_number() {
    assert_eq!(parse_shorthand_args(&strings(&["3"])), Some(vec![3]));
}

#[test]
fn shorthand_repeat() {
    assert_eq!(parse_shorthand_args(&strings(&["3x4"])), Some(vec![3, 3, 3, 3]));
}

#[test]
fn shorthand_mixed_arguments() {
    assert_eq!(
        parse_shorthand_args(&strings(&["1x3", "2x3", "3x4"])),
        Some(vec![1, 1, 1, 2, 2, 2, 3, 3, 3, 3])
    );
    assert_eq!(parse_shorthand_args(&strings(&["5", "0x2", "-1"])), Some(vec![5, 0, 0, -1]));
    assert_eq!(parse_shorthand_args(&strings(&[])), Some(vec![]));
}

#[test]
fn shorthand_signs_and_limits() {
    assert_eq!(parse_shorthand_args(&strings(&["+7"])), Some(vec![7]));
    assert_eq!(parse_shorthand_args(&strings(&["-2147483648"])), Some(vec![i32::MIN]));
    assert_eq!(parse_shorthand_args(&strings(&["2147483647"])), Some(vec![i32::MAX]));
    assert_eq!(parse_shorthand_args(&strings(&["2147483648"])), None);
    assert_eq!(parse_shorthand_args(&strings(&["-2147483649"])), None);
    assert_eq!(parse_shorthand_args(&strings(&["2x+2"])), Some(vec![2, 2]));
    assert_eq!(parse_shorthand_args(&strings(&["00012"])), Some(vec![12]));
}

#[test]
fn shorthand_malformed() {
    for bad in ["", "a", "-", "+", "x3", "3x", "3x-1", "3xx2", "1.5", "3 ", "2x2x2"] {
        assert_eq!(parse_shorthand_args(&strings(&["1", bad])), None, "{:?}", bad);
    }
}

#[test]
fn model_rejects_negative_request() {
    assert!(matches!(build_pairing_model(&vec![1, -1, 2]), Err(PairingError::MalformedInput)));
}

#[test]
fn model_for_no_participants_is_empty() {
    let m = build_pairing_model(&vec![]).unwrap();
    assert_eq!(m.participants, 0);
    assert!(m.constraints.is_empty());
}

#[test]
fn model_for_two_participants() {
    let m = build_pairing_model(&vec![1, 3]).unwrap();
    assert_eq!(m.participants, 2);
    let kinds: Vec<ConstraintKind> = m.constraints.iter().map(|c| c.kind).collect();
    assert_eq!(
        kinds,
        vec![
            ConstraintKind::NoSelfExchange,
            ConstraintKind::NoSelfExchange,
            ConstraintKind::NoMutualExchange,
            ConstraintKind::SenderCapacity,
            ConstraintKind::SenderCapacity,
            ConstraintKind::FlowBalance,
            ConstraintKind::FlowBalance,
        ]
    );
    let t = |sender, receiver, coef| Term { sender, receiver, coef };
    assert_eq!(m.constraints[1].terms, vec![t(1, 1, 1)]);
    assert_eq!((m.constraints[1].lower, m.constraints[1].upper), (0, 0));
    assert_eq!(m.constraints[2].terms, vec![t(0, 1, 1), t(1, 0, 1)]);
    assert_eq!((m.constraints[2].lower, m.constraints[2].upper), (0, 1));
    assert_eq!(m.constraints[4].terms, vec![t(1, 0, 1), t(1, 1, 1)]);
    assert_eq!((m.constraints[4].lower, m.constraints[4].upper), (0, 3));
    assert_eq!(m.constraints[5].terms, vec![t(0, 0, 1), t(0, 1, 1), t(0, 0, -1), t(1, 0, -1)]);
    assert_eq!((m.constraints[5].lower, m.constraints[5].upper), (0, 0));
}

#[test]
fn model_mutual_constraints_for_three() {
    let m = build_pairing_model(&vec![2, 2, 2]).unwrap();
    assert_eq!(m.constraints.len(), 3 + 3 + 3 + 3);
    let pairs: Vec<(usize, usize)> = m.constraints[3..6]
        .iter()
        .map(|c| (c.terms[0].sender, c.terms[0].receiver))
        .collect();
    assert_eq!(pairs, vec![(0, 1), (0, 2), (1, 2)]);
    assert_eq!(m.constraints[7].upper, 2);
}

#[test]
fn decode_two_cycle() {
    let v = selection(2, &[(0, 1), (1, 0)]);
    assert_eq!(decode_solution(2, &v), Ok(vec![(0, 1), (1, 0)]));
}

#[test]
fn decode_never_yields_self_pairs() {
    let v = selection(3, &[(0, 0), (1, 1), (2, 0), (0, 2)]);
    assert_eq!(decode_solution(3, &v), Ok(vec![(0, 2), (2, 0)]));
}

#[test]
fn decode_full_three_way_exchange() {
    let all: Vec<(usize, usize)> = vec![(0, 1), (0, 2), (1, 0), (1, 2), (2, 0), (2, 1)];
    let mut reversed = all.clone();
    reversed.reverse();
    let v = selection(3, &reversed);
    let p = decode_solution(3, &v).unwrap();
    assert_eq!(p, all);
    let idx = index_pairings(3, &p);
    for i in 0..3 {
        assert!(idx.sends_by[i].len() <= 2);
        assert_eq!(idx.sends_by[i].len(), idx.receives_by[i].len());
    }
}

#[test]
fn decode_nothing_selected() {
    let v = selection(2, &[]);
    assert_eq!(decode_solution(2, &v), Ok(vec![]));
    let p = decode_solution(2, &v).unwrap();
    assert!(p.iter().all(|&(s, _)| s != 0));
}

#[test]
fn decode_is_repeatable() {
    let v = selection(4, &[(3, 1), (1, 3), (0, 2), (2, 0)]);
    let a = decode_solution(4, &v).unwrap();
    let b = decode_solution(4, &v).unwrap();
    assert_eq!(a, b);
    assert_eq!(a, vec![(0, 2), (1, 3), (2, 0), (3, 1)]);
}

#[test]
fn decode_rejects_wrong_shape() {
    assert_eq!(decode_solution(3, &selection(2, &[])), Err(PairingError::MalformedInput));
    let mut v = selection(2, &[]);
    v[1].push(false);
    assert_eq!(decode_solution(2, &v), Err(PairingError::MalformedInput));
    assert_eq!(decode_solution(0, &vec![]), Ok(vec![]));
}

#[test]
fn index_keeps_pairing_order() {
    let p = vec![(0, 2), (1, 0), (0, 1), (2, 0)];
    let idx = index_pairings(3, &p);
    assert_eq!(idx.sends_by, vec![vec![2, 1], vec![0], vec![0]]);
    assert_eq!(idx.receives_by, vec![vec![1, 2], vec![0], vec![0]]);
}

#[test]
fn render_two_cycle() {
    let c = visualize_solution_matrix(&vec![(0, 1), (1, 0)], &vec![1, 1]);
    assert_eq!(c.side, 21);
    assert_eq!(c.rows.len(), 21);
    assert!(c.rows.iter().all(|r| r.len() == 21));
    for k in 0..21 {
        assert_eq!(c.rows[0][k], WHITE);
        assert_eq!(c.rows[10][k], WHITE);
        assert_eq!(c.rows[k][20], WHITE);
    }
    for dy in 0..9 {
        for dx in 0..9 {
            assert_eq!(c.rows[1 + dy][11 + dx], BLUE);
            assert_eq!(c.rows[11 + dy][1 + dx], BLUE);
            assert_eq!(c.rows[1 + dy][1 + dx], WHITE);
            assert_eq!(c.rows[11 + dy][11 + dx], WHITE);
        }
    }
}

#[test]
fn render_split_cells() {
    // Sends: 0 -> 1. Row 0 is the busiest sender, column 1 the busiest receiver.
    let c = visualize_solution_matrix(&vec![(0, 1)], &vec![1, 1, 1]);
    assert_eq!(c.side, 31);
    // Cell (row 0, col 2): upper part by column 2 (idle), lower part by row 0 (busiest).
    assert_eq!(c.rows[1][22], grey(255));
    assert_eq!(c.rows[1][21], grey(255));
    assert_eq!(c.rows[2][21], grey(128));
    // Cell (row 2, col 1): upper part by column 1 (busiest), lower by row 2 (idle).
    assert_eq!(c.rows[21][11], grey(128));
    assert_eq!(c.rows[22][11], grey(255));
    assert_eq!(c.rows[1][11], BLUE);
}

#[test]
fn render_rounds_the_ratio() {
    let p = vec![(0, 1), (0, 2), (0, 3), (1, 2)];
    let c = visualize_solution_matrix(&p, &vec![3, 1, 0, 0]);
    // Row 1 sends 1 of at most 3: 256 - round(128 / 3) = 213.
    assert_eq!(c.rows[12][31], grey(213));
    // Column 3 receives 1 of at most 2: 256 - 64 = 192.
    assert_eq!(c.rows[11][32], grey(192));
}

#[test]
fn render_without_pairings_is_light() {
    let c = visualize_solution_matrix(&vec![], &vec![0, 5]);
    assert_eq!(c.rows[1][11], grey(255));
    assert_eq!(c.rows[12][1], grey(255));
}

#[test]
fn render_no_participants() {
    let c = visualize_solution_matrix(&vec![], &vec![]);
    assert_eq!(c.side, 1);
    assert_eq!(c.rows, vec![vec![WHITE]]);
}

#[test]
fn render_is_repeatable() {
    let p = vec![(0, 1), (1, 2), (2, 0)];
    let a = visualize_solution_matrix(&p, &vec![1, 1, 1]);
    let b = visualize_solution_matrix(&p, &vec![1, 1, 1]);
    assert_eq!(a.side, b.side);
    assert_eq!(a.rows, b.rows);
}

#[test]
fn two_participants_cannot_exchange() {
    let m = build_pairing_model(&vec![1, 1]).unwrap();
    assert!(selection_satisfies(&m, &selection(2, &[])));
    // A two-way exchange is a mutual exchange, which the model forbids.
    assert!(!selection_satisfies(&m, &selection(2, &[(0, 1), (1, 0)])));
    assert!(!selection_satisfies(&m, &selection(2, &[(0, 1)])));
    assert!(!selection_satisfies(&m, &selection(2, &[(1, 0)])));
}

#[test]
fn three_participants_with_two_cards_each() {
    let m = build_pairing_model(&vec![2, 2, 2]).unwrap();
    let cycle = selection(3, &[(0, 1), (1, 2), (2, 0)]);
    assert!(selection_satisfies(&m, &cycle));
    let p = decode_solution(3, &cycle).unwrap();
    let idx = index_pairings(3, &p);
    for i in 0..3 {
        assert!(idx.sends_by[i].len() <= 2);
        assert_eq!(idx.sends_by[i].len(), idx.receives_by[i].len());
    }
    let everything = selection(3, &[(0, 1), (0, 2), (1, 0), (1, 2), (2, 0), (2, 1)]);
    assert!(!selection_satisfies(&m, &everything));
}

#[test]
fn participant_asking_for_nothing_blocks_the_other() {
    let m = build_pairing_model(&vec![0, 5]).unwrap();
    assert!(selection_satisfies(&m, &selection(2, &[])));
    assert!(!selection_satisfies(&m, &selection(2, &[(0, 1), (1, 0)])));
    assert!(!selection_satisfies(&m, &selection(2, &[(1, 0)])));
}

#[test]
fn self_selection_breaks_the_model() {
    let m = build_pairing_model(&vec![3, 3]).unwrap();
    assert!(!selection_satisfies(&m, &selection(2, &[(0, 0)])));
    assert!(!selection_satisfies(&m, &selection(3, &[])));
}

#[test]
fn capacity_caps_sends() {
    let m = build_pairing_model(&vec![1, 2, 2]).unwrap();
    // 0 -> 1 -> 0 is mutual; 0 -> 1, 1 -> 2, 2 -> 0 fits; adding 0 -> 2 would need two sends from 0.
    assert!(selection_satisfies(&m, &selection(3, &[(0, 1), (1, 2), (2, 0)])));
    assert!(!selection_satisfies(&m, &selection(3, &[(0, 1), (0, 2), (1, 0), (2, 0)])));
}
