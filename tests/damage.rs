use layout_engine::damage::RestyleDamage;

fn every_damage() -> Vec<RestyleDamage> {
    let mut v = Vec::new();
    for bits in 0u8..8 {
        v.push(RestyleDamage { repaint: bits & 1 != 0, bubble_widths: bits & 2 != 0, reflow: bits & 4 != 0 });
    }
    v
}

#[test]
fn union_is_commutative_associative_and_idempotent() {
    let all = every_damage();
    for &a in &all {
        assert_eq!(a.union(a), a);
        for &b in &all {
            assert_eq!(a.union(b), b.union(a));
            assert_eq!(a.union(b).union(b), a.union(b));
            for &c in &all {
                assert_eq!(a.union(b).union(c), a.union(b.union(c)));
            }
        }
    }
}

#[test]
fn union_sets_each_effect_of_either_side() {
    let a = RestyleDamage { repaint: true, bubble_widths: false, reflow: false };
    let b = RestyleDamage { repaint: false, bubble_widths: false, reflow: true };
    assert_eq!(a.union(b), RestyleDamage { repaint: true, bubble_widths: false, reflow: true });
    let mut c = RestyleDamage::none();
    c.union_in_place(b);
    assert_eq!(c, b);
    assert!(a.union(b).contains(a));
    assert!(!a.contains(b));
}

#[test]
fn none_and_all() {
    assert!(RestyleDamage::none().is_empty());
    assert!(!RestyleDamage::all().is_empty());
    for d in every_damage() {
        assert!(RestyleDamage::all().contains(d));
        assert_eq!(d.union(RestyleDamage::all()), RestyleDamage::all());
        assert_eq!(d.union(RestyleDamage::none()), d);
    }
}

#[test]
fn propagation_images() {
    let all = RestyleDamage::all();
    assert_eq!(all.propagate_up(), RestyleDamage { repaint: false, bubble_widths: true, reflow: false });
    assert_eq!(all.propagate_down(), RestyleDamage { repaint: false, bubble_widths: false, reflow: true });
    let repaint = RestyleDamage { repaint: true, bubble_widths: false, reflow: false };
    assert!(repaint.propagate_up().is_empty());
    assert!(repaint.propagate_down().is_empty());
}
