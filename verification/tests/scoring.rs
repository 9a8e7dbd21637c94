use engine::roster::lists;
use engine::{
    affinity_weight, contest, contest_weight, personal_affinity, score, Composition, Fraction,
    Lobby, Score, Single,
};

fn approx_eq(a: f32, b: f32, eps: f32) -> bool {
    (a - b).abs() < eps
}

fn single(x: f32) -> Single {
    Single { bits: x.to_bits() }
}

fn ratio(f: Fraction) -> f32 {
    f.num as f32 / f.den as f32
}

/// Takes the sum that a score stands for, in single precision.
fn evaluate(s: Score) -> f32 {
    match s {
        Score::Base { base_power } => f32::from_bits(base_power.bits),
        Score::Weighted { base_power, affinity, contest } => {
            f32::from_bits(base_power.bits) + ratio(affinity_weight()) * ratio(affinity)
                - ratio(contest_weight()) * ratio(contest)
        }
    }
}

fn names(list: &[&str]) -> Vec<String> {
    list.iter().map(|s| s.to_string()).collect()
}

fn comp(name: &str, champions: &[&str], base_power: f32) -> Composition {
    Composition { name: name.into(), champions: names(champions), base_power: single(base_power) }
}

#[test]
fn test_score_basic() {
    let comp = Composition {
        name: "Mage Core".into(),
        champions: vec!["A".into(), "B".into(), "C".into(), "D".into()],
        base_power: single(2.0),
    };

    let lobby = Lobby {
        my_units: vec!["A".into(), "E".into()],
        enemy_units: vec![vec!["F".into()], vec!["B".into(), "G".into()]],
    };

    // personal_affinity = 1/4, overlap = 1/4
    let expected = 2.0 + 0.6 * 0.25 - 0.4 * 0.25; // 2.05
    let result = evaluate(score(&comp, &lobby));
    assert!(approx_eq(result, expected, 1e-5));
}

#[test]
fn test_score_no_overlap_full_owned() {
    let comp = Composition {
        name: "Full Board".into(),
        champions: vec!["X".into(), "Y".into()],
        base_power: single(1.0),
    };
    let lobby = Lobby {
        my_units: vec!["X".into(), "Y".into()],
        enemy_units: vec![vec!["Z".into()]],
    };

    // personal_affinity = 1, overlap = 0
    let expected = 1.0 + 0.6 * 1.0 - 0.4 * 0.0; // 1.6
    let result = evaluate(score(&comp, &lobby));
    assert!(approx_eq(result, expected, 1e-5));
}

#[test]
fn test_affinity_none() {
    let comp = Composition {
        name: "Test".into(),
        champions: vec!["A".into(), "B".into()],
        base_power: single(0.0),
    };
    let my_units = vec!["C".into()];
    assert_eq!(ratio(personal_affinity(&my_units, &comp)), 0.0);
}

#[test]
fn test_affinity_partial() {
    let comp = Composition {
        name: "Test".into(),
        champions: vec!["A".into(), "B".into(), "C".into()],
        base_power: single(0.0),
    };
    let my_units = vec!["C".into(), "X".into()];
    assert!(approx_eq(ratio(personal_affinity(&my_units, &comp)), 1.0 / 3.0, 1e-5));
}

#[test]
fn test_affinity_full() {
    let comp = Composition {
        name: "Test".into(),
        champions: vec!["A".into(), "B".into()],
        base_power: single(0.0),
    };
    let my_units = vec!["A".into(), "B".into(), "Z".into()];
    assert_eq!(ratio(personal_affinity(&my_units, &comp)), 1.0);
}

#[test]
fn affinity_counts_exact_parts() {
    let none = personal_affinity(&names(&["C"]), &comp("Test", &["A", "B"], 0.0));
    assert_eq!(none, Fraction { num: 0, den: 2 });
    let partial = personal_affinity(&names(&["C", "X"]), &comp("Test", &["A", "B", "C"], 0.0));
    assert_eq!(partial, Fraction { num: 1, den: 3 });
    let full = personal_affinity(&names(&["A", "B", "Z"]), &comp("Test", &["A", "B"], 0.0));
    assert_eq!(full, Fraction { num: 2, den: 2 });
}

#[test]
fn affinity_of_empty_composition_is_zero() {
    let empty = comp("Empty", &[], 3.5);
    assert_eq!(personal_affinity(&names(&["A"]), &empty), Fraction { num: 0, den: 1 });
    assert_eq!(personal_affinity(&names(&[]), &empty), Fraction { num: 0, den: 1 });
    assert_eq!(ratio(personal_affinity(&names(&["A"]), &empty)).to_bits(), 0.0f32.to_bits());
}

#[test]
fn affinity_with_nothing_owned_is_zero_of_all() {
    let c = comp("Test", &["A", "B", "C"], 0.0);
    assert_eq!(personal_affinity(&names(&[]), &c), Fraction { num: 0, den: 3 });
}

#[test]
fn affinity_counts_each_position() {
    let c = comp("Twins", &["A", "A", "B"], 0.0);
    assert_eq!(personal_affinity(&names(&["A"]), &c), Fraction { num: 2, den: 3 });
    // owning a unit twice adds nothing
    assert_eq!(personal_affinity(&names(&["A", "A"]), &c), Fraction { num: 2, den: 3 });
    assert_eq!(personal_affinity(&names(&["B", "B", "B", "B"]), &c), Fraction { num: 1, den: 3 });
}

#[test]
fn affinity_tells_identifiers_apart_exactly() {
    let c = comp("Test", &["Ahri", "ahri", "Ahri ", ""], 0.0);
    assert_eq!(personal_affinity(&names(&["Ahri"]), &c), Fraction { num: 1, den: 4 });
    assert_eq!(personal_affinity(&names(&[""]), &c), Fraction { num: 1, den: 4 });
    assert_eq!(personal_affinity(&names(&["Ahr"]), &c), Fraction { num: 0, den: 4 });
}

#[test]
fn contest_of_mage_core_and_full_board() {
    let first = comp("Mage Core", &["A", "B", "C", "D"], 2.0);
    let boards = vec![names(&["F"]), names(&["B", "G"])];
    assert_eq!(contest(&boards, &first), Fraction { num: 1, den: 4 });
    assert_eq!(ratio(contest(&boards, &first)), 0.25);

    let second = comp("Full Board", &["X", "Y"], 1.0);
    let boards = vec![names(&["Z"])];
    assert_eq!(contest(&boards, &second), Fraction { num: 0, den: 2 });
    assert_eq!(ratio(contest(&boards, &second)), 0.0);
}

#[test]
fn contest_takes_boards_together() {
    let c = comp("Test", &["A", "B"], 0.0);
    // on two boards, still one position
    let boards = vec![names(&["A"]), names(&["A", "A"]), names(&[])];
    assert_eq!(contest(&boards, &c), Fraction { num: 1, den: 2 });
    // split over boards
    let boards = vec![names(&["B"]), names(&["Q"]), names(&["A"])];
    assert_eq!(contest(&boards, &c), Fraction { num: 2, den: 2 });
    // regrouping the same units changes nothing
    let boards = vec![names(&["B", "Q", "A"])];
    assert_eq!(contest(&boards, &c), Fraction { num: 2, den: 2 });
}

#[test]
fn contest_counts_each_position() {
    let c = comp("Twins", &["A", "A", "B", "C"], 0.0);
    let boards = vec![names(&["A"])];
    assert_eq!(contest(&boards, &c), Fraction { num: 2, den: 4 });
}

#[test]
fn contest_without_opponents_is_zero() {
    let c = comp("Test", &["A", "B", "C"], 0.0);
    assert_eq!(contest(&Vec::new(), &c), Fraction { num: 0, den: 3 });
    assert_eq!(contest(&vec![Vec::new(), Vec::new()], &c), Fraction { num: 0, den: 3 });
}

#[test]
fn proportions_stay_between_zero_and_one() {
    let owned = names(&["A", "B", "C", "D", "E"]);
    let boards = vec![names(&["A", "C"]), names(&["E", "Z"])];
    for champions in [
        vec!["A"],
        vec!["Z"],
        vec!["A", "B"],
        vec!["A", "Q", "Q"],
        vec!["E", "E", "E", "E"],
        vec!["Q", "R", "S", "T", "U"],
    ] {
        let c = comp("Test", &champions, 0.0);
        let a = personal_affinity(&owned, &c);
        let k = contest(&boards, &c);
        assert!(a.den == champions.len() && a.num <= a.den);
        assert!(k.den == champions.len() && k.num <= k.den);
        assert!(0.0 <= ratio(a) && ratio(a) <= 1.0);
        assert!(0.0 <= ratio(k) && ratio(k) <= 1.0);
    }
}

#[test]
fn weights_are_three_and_two_fifths() {
    assert_eq!(affinity_weight(), Fraction { num: 3, den: 5 });
    assert_eq!(contest_weight(), Fraction { num: 2, den: 5 });
    assert_eq!(ratio(affinity_weight()).to_bits(), 0.6f32.to_bits());
    assert_eq!(ratio(contest_weight()).to_bits(), 0.4f32.to_bits());
}

#[test]
fn score_terms_of_mage_core_and_full_board() {
    let first = comp("Mage Core", &["A", "B", "C", "D"], 2.0);
    let lobby = Lobby {
        my_units: names(&["A", "E"]),
        enemy_units: vec![names(&["F"]), names(&["B", "G"])],
    };
    match score(&first, &lobby) {
        Score::Weighted { base_power, affinity, contest } => {
            assert_eq!(base_power.bits, 2.0f32.to_bits());
            assert_eq!(affinity, Fraction { num: 1, den: 4 });
            assert_eq!(contest, Fraction { num: 1, den: 4 });
        }
        Score::Base { .. } => panic!("a composition with champions has a weighted score"),
    }
    assert_eq!(evaluate(score(&first, &lobby)).to_bits(), (2.0f32 + 0.6 * 0.25 - 0.4 * 0.25).to_bits());

    let second = comp("Full Board", &["X", "Y"], 1.0);
    let lobby = Lobby { my_units: names(&["X", "Y"]), enemy_units: vec![names(&["Z"])] };
    match score(&second, &lobby) {
        Score::Weighted { base_power, affinity, contest } => {
            assert_eq!(base_power.bits, 1.0f32.to_bits());
            assert_eq!(affinity, Fraction { num: 2, den: 2 });
            assert_eq!(contest, Fraction { num: 0, den: 2 });
        }
        Score::Base { .. } => panic!("a composition with champions has a weighted score"),
    }
    assert_eq!(evaluate(score(&second, &lobby)).to_bits(), (1.0f32 + 0.6 * 1.0 - 0.4 * 0.0).to_bits());
}

#[test]
fn empty_composition_scores_its_base_power() {
    let lobby = Lobby {
        my_units: names(&["A", "B"]),
        enemy_units: vec![names(&["A"]), names(&["C"])],
    };
    for base in [2.5f32, 0.0, -0.0, -7.25, f32::INFINITY, f32::MIN_POSITIVE, f32::NAN] {
        let empty = comp("Empty", &[], base);
        match score(&empty, &lobby) {
            Score::Base { base_power } => assert_eq!(base_power.bits, base.to_bits()),
            Score::Weighted { .. } => panic!("nothing weighs on an empty composition"),
        }
        assert_eq!(evaluate(score(&empty, &lobby)).to_bits(), base.to_bits());
    }
}

#[test]
fn score_may_be_negative() {
    let c = comp("Contested", &["A", "B"], -1.0);
    let lobby = Lobby { my_units: names(&[]), enemy_units: vec![names(&["A", "B"])] };
    let value = evaluate(score(&c, &lobby));
    assert_eq!(value.to_bits(), (-1.0f32 + 0.6 * 0.0 - 0.4 * 1.0).to_bits());
    assert!(value < 0.0);
}

#[test]
fn scoring_twice_gives_the_same_score() {
    let c = comp("Mage Core", &["A", "B", "C", "D", "A"], 2.0);
    let lobby = Lobby {
        my_units: names(&["A", "E"]),
        enemy_units: vec![names(&["F"]), names(&["B", "G"])],
    };
    let first = score(&c, &lobby);
    let second = score(&c, &lobby);
    match (first, second) {
        (
            Score::Weighted { base_power: b1, affinity: a1, contest: c1 },
            Score::Weighted { base_power: b2, affinity: a2, contest: c2 },
        ) => {
            assert_eq!(b1.bits, b2.bits);
            assert_eq!(a1, a2);
            assert_eq!(c1, c2);
        }
        _ => panic!("both scores are weighted"),
    }
    assert_eq!(evaluate(first).to_bits(), evaluate(second).to_bits());
}

#[test]
fn lists_finds_whole_identifiers_only() {
    let units = names(&["Ahri", "Garen", ""]);
    assert!(lists(&units, &"Ahri".to_string()));
    assert!(lists(&units, &"Garen".to_string()));
    assert!(lists(&units, &"".to_string()));
    assert!(!lists(&units, &"Ahr".to_string()));
    assert!(!lists(&units, &"garen".to_string()));
    assert!(!lists(&Vec::new(), &"Ahri".to_string()));
}
