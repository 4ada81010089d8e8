use ltl_engine::error::EngineError;
use ltl_engine::generator::Generator;
use ltl_engine::neighbourhood::Neighbourhood;
use rand::rngs::mock::StepRng;
use rand::Rng;

#[test]
fn from_str_moore() {
    let n = Neighbourhood::from_str("NM").unwrap();
    assert_eq!(n, Neighbourhood::Moore);
}

#[test]
fn from_str_neumann() {
    let n = Neighbourhood::from_str("NN").unwrap();
    assert_eq!(n, Neighbourhood::Neumann);
}

#[test]
#[should_panic]
fn from_str_err() {
    assert_eq!(
        Neighbourhood::from_str("asd"),
        Err(EngineError::InvalidNeighbourhoodToken)
    );
    Neighbourhood::from_str("asd").unwrap();
}

#[test]
fn moore_to_string() {
    assert_eq!(Neighbourhood::Moore.to_string(), "NM");
}

#[test]
fn neumann_to_string() {
    assert_eq!(Neighbourhood::Neumann.to_string(), "NN");
}

#[test]
fn randomize_moore() {
    let mut rnd = StepRng::new(0, 1);
    assert_eq!(
        Neighbourhood::of_coin(rnd.gen_bool(0.5)),
        Neighbourhood::Moore
    );
}

#[test]
fn randomize_neumann() {
    let mut rnd = StepRng::new(u64::MAX, 1);
    assert_eq!(
        Neighbourhood::of_coin(rnd.gen_bool(0.5)),
        Neighbourhood::Neumann
    );
}

#[test]
fn moore_area_included() {
    let area = Neighbourhood::Moore.area(1, 1);
    assert_eq!(area, 9);
}

#[test]
fn moore_area_excluded() {
    let area = Neighbourhood::Moore.area(1, 0);
    assert_eq!(area, 8);
}

#[test]
fn moore_area_bigger_radius() {
    let area = Neighbourhood::Moore.area(3, 1);
    assert_eq!(area, 49);
}

#[test]
fn neumann_area_included() {
    let area = Neighbourhood::Neumann.area(1, 1);
    assert_eq!(area, 5);
}

#[test]
fn neumann_area_excluded() {
    let area = Neighbourhood::Neumann.area(1, 0);
    assert_eq!(area, 4);
}

#[test]
fn neumann_area_bigger_radius() {
    let area = Neighbourhood::Neumann.area(3, 1);
    assert_eq!(area, 25);
}

#[test]
fn only_the_two_tokens_parse() {
    for token in ["", "N", "nn", "nm", "MN", "MM", "NN ", " NM", "NMN", "Moore", "ＮＮ"] {
        assert_eq!(
            Neighbourhood::from_str(token),
            Err(EngineError::InvalidNeighbourhoodToken)
        );
    }
}

#[test]
fn tokens_parse_back() {
    for topology in [Neighbourhood::Neumann, Neighbourhood::Moore] {
        assert_eq!(Neighbourhood::from_str(&topology.to_string()), Ok(topology));
    }
    for token in ["NN", "NM"] {
        assert_eq!(Neighbourhood::from_str(token).unwrap().to_string(), token);
    }
}

#[test]
fn area_is_capped() {
    assert_eq!(Neighbourhood::Moore.area(7, 1), 225);
    assert_eq!(Neighbourhood::Moore.area(8, 1), 255);
    assert_eq!(Neighbourhood::Moore.area(8, 0), 255);
    assert_eq!(Neighbourhood::Moore.area(255, 1), 255);
    assert_eq!(Neighbourhood::Neumann.area(10, 1), 221);
    assert_eq!(Neighbourhood::Neumann.area(10, 0), 220);
    assert_eq!(Neighbourhood::Neumann.area(11, 1), 255);
    assert_eq!(Neighbourhood::Neumann.area(11, 0), 255);
    assert_eq!(Neighbourhood::Neumann.area(255, 0), 255);
    assert_eq!(Neighbourhood::Moore.area(128, 1), 255);
}

#[test]
fn area_of_no_radius() {
    assert_eq!(Neighbourhood::Moore.area(0, 1), 1);
    assert_eq!(Neighbourhood::Moore.area(0, 0), 0);
    assert_eq!(Neighbourhood::Neumann.area(0, 1), 1);
    assert_eq!(Neighbourhood::Neumann.area(0, 0), 0);
}

#[test]
fn area_counts_the_centre_only_for_one() {
    assert_eq!(Neighbourhood::Moore.area(2, 1), 25);
    assert_eq!(Neighbourhood::Moore.area(2, 0), 24);
    assert_eq!(Neighbourhood::Moore.area(2, 2), 24);
    assert_eq!(Neighbourhood::Neumann.area(2, 1), 13);
    assert_eq!(Neighbourhood::Neumann.area(2, 7), 12);
}

#[test]
fn neumann_area_is_the_diamond_formula() {
    // radius squared plus the next radius squared, not the lattice count
    assert_eq!(Neighbourhood::Neumann.area(4, 1), 16 + 25);
    assert_eq!(Neighbourhood::Neumann.area(5, 1), 25 + 36);
}

#[test]
fn of_coin_picks_by_the_side() {
    assert_eq!(Neighbourhood::of_coin(true), Neighbourhood::Moore);
    assert_eq!(Neighbourhood::of_coin(false), Neighbourhood::Neumann);
}

#[test]
fn seeded_topologies_repeat_and_vary() {
    let mut seen_moore = false;
    let mut seen_neumann = false;
    for seed in 0..64u64 {
        let first = Neighbourhood::randomize(&mut Generator::new(Some(seed)));
        let second = Neighbourhood::randomize(&mut Generator::new(Some(seed)));
        assert_eq!(first, second);
        seen_moore |= first == Neighbourhood::Moore;
        seen_neumann |= first == Neighbourhood::Neumann;
    }
    assert!(seen_moore && seen_neumann);
}

#[test]
fn a_generator_moves_on_between_draws() {
    let mut rng = Generator::new(Some(5));
    let run: Vec<u8> = (0..64).map(|_| rng.draw_u8(0, 255)).collect();
    assert!(run.iter().any(|&d| d != run[0]));
    let mut again = Generator::new(Some(5));
    let rerun: Vec<u8> = (0..64).map(|_| again.draw_u8(0, 255)).collect();
    assert_eq!(run, rerun);
    let wide: Vec<u16> = (0..64).map(|_| rng.draw_u16(300, 60000)).collect();
    assert!(wide.iter().all(|&d| (300..=60000).contains(&d)));
    assert!(wide.iter().any(|&d| d != wide[0]));
    let coins: Vec<bool> = (0..64).map(|_| rng.coin()).collect();
    assert!(coins.contains(&true) && coins.contains(&false));
}

#[test]
fn draws_from_the_entropy_of_the_machine_stay_in_range() {
    let mut rng = Generator::new(None);
    for _ in 0..200 {
        let small = rng.draw_u8(3, 9);
        assert!((3..=9).contains(&small));
        let wide = rng.draw_u16(1000, 1002);
        assert!((1000..=1002).contains(&wide));
        assert_eq!(rng.draw_u8(7, 7), 7);
    }
    let coins: Vec<bool> = (0..200).map(|_| rng.coin()).collect();
    assert!(coins.contains(&true) && coins.contains(&false));
    let all: Vec<u8> = (0..200).map(|_| rng.draw_u8(0, 255)).collect();
    assert!(all.iter().any(|&d| d != all[0]));
}

#[test]
fn seeded_draws_are_those_of_the_pcg_stream() {
    let mut rng = Generator::new(Some(5));
    let run: Vec<u8> = (0..8).map(|_| rng.draw_u8(0, 255)).collect();
    assert_eq!(run, vec![182, 0, 21, 135, 132, 47, 114, 9]);
}
