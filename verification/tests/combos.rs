use launch_scripts::combo::{Combo, ParseError, CORES_PER_NODE, DIVISORS};
use launch_scripts::run::select_combos;

fn strings(args: &[&str]) -> Vec<String> {
    args.iter().map(|a| a.to_string()).collect()
}

#[test]
fn new_keeps_the_fields() {
    let c = Combo::new(2, 6, 4);
    assert_eq!(c.nodes, 2);
    assert_eq!(c.ranks, 6);
    assert_eq!(c.threads, 4);
    assert_eq!(c, Combo { nodes: 2, ranks: 6, threads: 4 });
}

#[test]
fn divisor_list_is_that_of_the_core_count() {
    let computed: Vec<usize> = (1..=CORES_PER_NODE).filter(|d| CORES_PER_NODE % d == 0).collect();
    assert_eq!(computed, DIVISORS.to_vec());
}

#[test]
fn single_node_enumeration_has_eight_combos_in_divisor_order() {
    let combos = Combo::gen_combos_single_node();
    assert_eq!(
        combos,
        vec![
            Combo { nodes: 1, ranks: 1, threads: 24 },
            Combo { nodes: 1, ranks: 2, threads: 12 },
            Combo { nodes: 1, ranks: 3, threads: 8 },
            Combo { nodes: 1, ranks: 4, threads: 6 },
            Combo { nodes: 1, ranks: 6, threads: 4 },
            Combo { nodes: 1, ranks: 8, threads: 3 },
            Combo { nodes: 1, ranks: 12, threads: 2 },
            Combo { nodes: 1, ranks: 24, threads: 1 },
        ]
    );
}

#[test]
fn single_node_combos_fill_the_node() {
    let combos = Combo::gen_combos_single_node();
    assert_eq!(combos.len(), DIVISORS.len());
    for (combo, d) in combos.iter().zip(DIVISORS.iter()) {
        assert_eq!(combo.nodes, 1);
        assert_eq!(combo.ranks, *d);
        assert_eq!(combo.ranks * combo.threads, CORES_PER_NODE);
    }
}

#[test]
fn parse_arg_reads_a_triple() {
    assert_eq!(Combo::parse_arg("4,12,2"), Ok(Combo { nodes: 4, ranks: 12, threads: 2 }));
}

#[test]
fn parse_arg_rejects_two_segments() {
    assert_eq!(Combo::parse_arg("1,2"), Err(ParseError::SegmentCount));
}

#[test]
fn parse_arg_rejects_four_segments() {
    assert_eq!(Combo::parse_arg("1,2,3,4"), Err(ParseError::SegmentCount));
}

#[test]
fn parse_arg_rejects_a_letter() {
    assert_eq!(Combo::parse_arg("a,2,3"), Err(ParseError::InvalidNumber));
}

#[test]
fn parse_arg_reports_a_bad_number_before_a_bad_count() {
    assert_eq!(Combo::parse_arg("a,2"), Err(ParseError::InvalidNumber));
    assert_eq!(Combo::parse_arg("a,2,3,4"), Err(ParseError::InvalidNumber));
    assert_eq!(Combo::parse_arg("1,2,x,4"), Err(ParseError::InvalidNumber));
    assert_eq!(Combo::parse_arg("1,2,3,x"), Err(ParseError::SegmentCount));
}

#[test]
fn parse_arg_rejects_empty_pieces() {
    assert_eq!(Combo::parse_arg(""), Err(ParseError::InvalidNumber));
    assert_eq!(Combo::parse_arg(","), Err(ParseError::InvalidNumber));
    assert_eq!(Combo::parse_arg("1,,3"), Err(ParseError::InvalidNumber));
    assert_eq!(Combo::parse_arg("1,2,"), Err(ParseError::InvalidNumber));
    assert_eq!(Combo::parse_arg("1,2,3,"), Err(ParseError::SegmentCount));
    assert_eq!(Combo::parse_arg("1"), Err(ParseError::SegmentCount));
}

#[test]
fn parse_arg_rejects_blanks_and_signs() {
    assert_eq!(Combo::parse_arg("1, 2,3"), Err(ParseError::InvalidNumber));
    assert_eq!(Combo::parse_arg("1,-2,3"), Err(ParseError::InvalidNumber));
    assert_eq!(Combo::parse_arg("1,2.0,3"), Err(ParseError::InvalidNumber));
}

#[test]
fn parse_arg_accepts_zero_and_leading_zeros() {
    assert_eq!(Combo::parse_arg("0,0,0"), Ok(Combo { nodes: 0, ranks: 0, threads: 0 }));
    assert_eq!(Combo::parse_arg("01,002,+3"), Ok(Combo { nodes: 1, ranks: 2, threads: 3 }));
}

#[test]
fn parse_arg_agrees_with_std_on_each_piece() {
    for piece in ["7", "+7", "007", "", "+", "-7", "7 ", " 7", "7_0", "0x7", "٣", "99999999999999999999999"] {
        let arg = format!("1,{},3", piece);
        let expected = match piece.parse::<usize>() {
            Ok(v) => Ok(Combo { nodes: 1, ranks: v, threads: 3 }),
            Err(_) => Err(ParseError::InvalidNumber),
        };
        assert_eq!(Combo::parse_arg(&arg), expected);
    }
}

#[test]
fn parse_arg_rejects_a_number_too_large() {
    let max = usize::MAX.to_string();
    let arg = format!("{},{},{}", max, max, max);
    assert_eq!(
        Combo::parse_arg(&arg),
        Ok(Combo { nodes: usize::MAX, ranks: usize::MAX, threads: usize::MAX })
    );
    let over = format!("1,{}0,3", max);
    assert_eq!(Combo::parse_arg(&over), Err(ParseError::InvalidNumber));
}

#[test]
fn gen_from_args_keeps_order_and_repeats() {
    let args = strings(&["4,12,2", "1,2,3", "4,12,2"]);
    assert_eq!(
        Combo::gen_from_args(&args),
        Ok(vec![
            Combo { nodes: 4, ranks: 12, threads: 2 },
            Combo { nodes: 1, ranks: 2, threads: 3 },
            Combo { nodes: 4, ranks: 12, threads: 2 },
        ])
    );
}

#[test]
fn gen_from_args_needs_an_argument() {
    assert_eq!(Combo::gen_from_args(&Vec::new()), Err(ParseError::NoArguments));
}

#[test]
fn gen_from_args_fails_with_the_first_error() {
    let args = strings(&["1,2,3", "1,2", "a,2,3"]);
    assert_eq!(Combo::gen_from_args(&args), Err(ParseError::SegmentCount));
    let args = strings(&["1,2,3", "a,2,3", "1,2"]);
    assert_eq!(Combo::gen_from_args(&args), Err(ParseError::InvalidNumber));
}

#[test]
fn stringify_gives_plain_decimal() {
    let (n, r, t) = Combo::new(2, 16, 104).stringify();
    assert_eq!(n, "2");
    assert_eq!(r, "16");
    assert_eq!(t, "104");
}

#[test]
fn stringify_then_parse_gives_the_combo_back() {
    for combo in [Combo::new(0, 1, 2), Combo::new(10, 200, 3000), Combo::new(usize::MAX, 9, 90)] {
        let (n, r, t) = combo.stringify();
        let arg = format!("{},{},{}", n, r, t);
        assert_eq!(Combo::parse_arg(&arg), Ok(combo));
    }
}

#[test]
fn select_without_arguments_enumerates() {
    assert_eq!(select_combos(&Vec::new()), Ok(Combo::gen_combos_single_node()));
}

#[test]
fn select_with_arguments_parses_them() {
    let args = strings(&["2,6,4"]);
    assert_eq!(select_combos(&args), Ok(vec![Combo { nodes: 2, ranks: 6, threads: 4 }]));
    let args = strings(&["2,6"]);
    assert_eq!(select_combos(&args), Err(ParseError::SegmentCount));
}
