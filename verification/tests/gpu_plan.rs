use stylize::config::Config;
use stylize::reduce::{reduce_groups, reduce_passes};
use stylize::score::GpuScorer;

#[test]
fn groups_round_up() {
    assert_eq!(reduce_groups(0), 0);
    assert_eq!(reduce_groups(1), 1);
    assert_eq!(reduce_groups(512), 1);
    assert_eq!(reduce_groups(513), 2);
    assert_eq!(reduce_groups(1024), 2);
    assert_eq!(reduce_groups(1025), 3);
}

#[test]
fn passes_reduce_to_one() {
    assert_eq!(reduce_passes(0), Vec::<u32>::new());
    assert_eq!(reduce_passes(1), Vec::<u32>::new());
    assert_eq!(reduce_passes(2), vec![1]);
    assert_eq!(reduce_passes(512), vec![1]);
    assert_eq!(reduce_passes(513), vec![2, 1]);
    assert_eq!(reduce_passes(640 * 480), vec![600, 2, 1]);
    assert_eq!(reduce_passes(512 * 512 * 512 + 1), vec![262145, 513, 2, 1]);
}

#[test]
fn every_pass_covers_its_input() {
    for n in [2u32, 3, 511, 512, 513, 100_000, 1 << 30] {
        let passes = reduce_passes(n);
        assert_eq!(*passes.last().unwrap(), 1);
        assert!(passes.len() <= 4);
        let mut input = n;
        for g in passes {
            assert!(input <= 512 * g);
            assert!(512 * (g - 1) < input);
            input = g;
        }
    }
}

#[test]
fn scorer_sizes() {
    let s = GpuScorer::new(640, 480);
    assert_eq!(s.width(), 640);
    assert_eq!(s.height(), 480);
    assert_eq!(s.texel_count(), 307_200);
    assert_eq!(s.diff_buffer_size(), 1_228_800);
    assert_eq!(s.reduce_passes(), vec![600, 2, 1]);
}

#[test]
fn saves_every_n_iterations() {
    let cfg = Config {
        input: String::from("in.png"),
        output: String::from("output.png"),
        iterations: 1000,
        save_every: 100,
        seed: None,
    };
    assert!(cfg.saves_at(0));
    assert!(!cfg.saves_at(1));
    assert!(!cfg.saves_at(99));
    assert!(cfg.saves_at(100));
    assert!(cfg.saves_at(900));
}
