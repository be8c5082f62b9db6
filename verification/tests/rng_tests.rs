use raytracer::rng::{new_rng, next_unit};

#[test]
fn draws_stay_in_the_unit_interval() {
    let mut rng = new_rng(99);
    let mut seen_nonzero = false;
    for _ in 0..1000 {
        let r = next_unit(&mut rng);
        assert!((0..4096).contains(&r));
        if r != 0 {
            seen_nonzero = true;
        }
    }
    // A generator that always handed back the same constant would be
    // useless for sampling.
    assert!(seen_nonzero);
}
