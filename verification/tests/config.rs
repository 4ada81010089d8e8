use ltl_engine::config::Config;
use ltl_engine::generator::Generator;
use ltl_engine::neighbourhood::Neighbourhood;

fn assert_drawn(config: &Config) {
    let area = config.nn.area(config.rr, config.mm);
    assert!((1..=10).contains(&config.rr));
    assert!(config.mm <= 1);
    assert!((1..=25).contains(&config.cc));
    assert!(config.ss.0 < area);
    assert!(config.ss.0 <= config.ss.1 && config.ss.1 <= area);
    assert!(config.bb.0 < area);
    assert!(config.bb.0 <= config.bb.1 && config.bb.1 <= area);
}

#[test]
fn config_new_stores_what_it_is_given() {
    let config = Config::new(3, 7, 1, (4, 9), (5, 6), Neighbourhood::Neumann);
    assert_eq!(config.rr, 3);
    assert_eq!(config.cc, 7);
    assert_eq!(config.mm, 1);
    assert_eq!(config.ss, (4, 9));
    assert_eq!(config.bb, (5, 6));
    assert_eq!(config.nn, Neighbourhood::Neumann);
    // nothing is checked or put right: ranges may even run backwards
    let odd = Config::new(0, 0, 9, (9, 1), (700, 2), Neighbourhood::Moore);
    assert_eq!(
        odd,
        Config {
            rr: 0,
            cc: 0,
            mm: 9,
            ss: (9, 1),
            bb: (700, 2),
            nn: Neighbourhood::Moore,
        }
    );
}

#[test]
fn states_are_at_least_two() {
    let states = |cc: u8| Config::new(1, cc, 0, (2, 3), (3, 3), Neighbourhood::Moore).states();
    assert_eq!(states(0), 2);
    assert_eq!(states(1), 2);
    assert_eq!(states(2), 2);
    assert_eq!(states(3), 3);
    assert_eq!(states(255), 255);
}

#[test]
fn seeded_config_is_the_same_each_time() {
    for seed in [0u64, 1, 2, 42, u64::MAX] {
        let first = Config::randomize(Some(seed));
        let second = Config::randomize(Some(seed));
        assert_eq!(first, second);
        assert_eq!(
            first,
            Config::generate_random_config(Generator::new(Some(seed)))
        );
    }
}

#[test]
fn random_configs_lie_in_their_ranges() {
    for seed in 0..300u64 {
        assert_drawn(&Config::randomize(Some(seed)));
    }
    for _ in 0..100 {
        assert_drawn(&Config::randomize(None));
    }
}

#[test]
fn random_configs_vary() {
    let configs: Vec<Config> = (0..200u64).map(|s| Config::randomize(Some(s))).collect();
    let first = configs[0];
    assert!(configs.iter().any(|c| c.rr != first.rr));
    assert!(configs.iter().any(|c| c.cc != first.cc));
    assert!(configs.iter().any(|c| c.mm == 0));
    assert!(configs.iter().any(|c| c.mm == 1));
    assert!(configs.iter().any(|c| c.nn == Neighbourhood::Moore));
    assert!(configs.iter().any(|c| c.nn == Neighbourhood::Neumann));
    // the thresholds are drawn, not handed back: neither end of either range
    // sits at a bound of its draw every time
    assert!(configs.iter().any(|c| c.ss.0 != 0));
    assert!(configs.iter().any(|c| c.bb.0 != 0));
    assert!(configs.iter().any(|c| c.ss.1 != c.ss.0));
    assert!(configs.iter().any(|c| c.bb.1 != c.bb.0));
    assert!(configs.iter().any(|c| c.ss.1 != c.nn.area(c.rr, c.mm)));
    assert!(configs.iter().any(|c| c.bb.1 != c.nn.area(c.rr, c.mm)));
    assert!(configs.iter().any(|c| c.ss != c.bb));
}

#[test]
fn seeded_configs_are_those_of_the_pcg_stream() {
    assert_eq!(
        Config::randomize(Some(0)),
        Config::new(1, 14, 1, (3, 3), (6, 6), Neighbourhood::Moore)
    );
    assert_eq!(
        Config::randomize(Some(42)),
        Config::new(8, 7, 1, (164, 241), (83, 241), Neighbourhood::Moore)
    );
    assert_eq!(
        Config::randomize(Some(u64::MAX)),
        Config::new(6, 13, 0, (20, 46), (19, 63), Neighbourhood::Neumann)
    );
}
