use raytracer::path::{Bounce, Path, Step};

#[test]
fn depth_zero_is_black() {
    let p = Path::new(0);
    assert_eq!(p.step(), Step::Black);
}

#[test]
fn miss_ends_in_sky() {
    let mut p = Path::new(50);
    assert_eq!(p.step(), Step::Trace);
    assert_eq!(p.remaining(), 50);
    p.record(Bounce::Miss);
    assert_eq!(p.step(), Step::Sky);
}

#[test]
fn absorbed_ends_black() {
    let mut p = Path::new(3);
    p.record(Bounce::Scattered);
    assert_eq!(p.step(), Step::Trace);
    assert_eq!(p.remaining(), 2);
    p.record(Bounce::Absorbed);
    assert_eq!(p.step(), Step::Black);
}

#[test]
fn scattering_past_depth_ends_black() {
    let mut p = Path::new(3);
    let mut traced = 0;
    while p.step() == Step::Trace {
        p.record(Bounce::Scattered);
        traced += 1;
    }
    assert_eq!(traced, 3);
    assert_eq!(p.step(), Step::Black);
}

#[test]
fn sky_after_scatters() {
    let mut p = Path::new(3);
    p.record(Bounce::Scattered);
    p.record(Bounce::Scattered);
    assert_eq!(p.remaining(), 1);
    p.record(Bounce::Miss);
    assert_eq!(p.step(), Step::Sky);
}
