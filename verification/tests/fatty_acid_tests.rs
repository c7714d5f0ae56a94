use hmf::display::{DisplayWithOptions, Options};
use hmf::fatty_acid::{FattyAcid, Isomerism, Unsaturated, Unsaturation};

fn oleic_like(carbons: u8, indices: &[u8]) -> FattyAcid {
    FattyAcid {
        carbons,
        unsaturated: indices
            .iter()
            .map(|&index| Unsaturated {
                index: Some(index),
                isomerism: Some(Isomerism::Cis),
                unsaturation: Some(Unsaturation::One),
            })
            .collect(),
    }
}

#[test]
fn fatty_acid_test() {
    let acid = oleic_like(18, &[9]);
    let display = acid.display(Options::common());
    assert_eq!(display.render(), "18:1");
    assert_eq!(display.render_full(), "18:1\u{0394}9");
}

#[test]
fn display_common_two_bonds() {
    let acid = oleic_like(18, &[9, 12]);
    let display = acid.display(Options::common());
    assert_eq!(display.render(), "18:2");
    assert_eq!(display.render_full(), "18:2\u{0394}9,12");
}

#[test]
fn display_id_style() {
    let acid = oleic_like(18, &[9]);
    let display = acid.display(Options::id());
    assert_eq!(display.render(), "c18u1");
    let saturated = FattyAcid::new(18);
    let display = saturated.display(Options::id());
    assert_eq!(display.render(), "c18u0");
    assert_eq!(display.render_full(), "c18u0");
}

#[test]
fn display_three_digit_carbons() {
    let acid = FattyAcid::new(255);
    let display = acid.display(Options::common());
    assert_eq!(display.render(), "255:0");
}

#[test]
fn sort_orders_by_index() {
    let mut acid = oleic_like(18, &[15, 9, 12]);
    acid.sort();
    let indices: Vec<Option<u8>> = acid.unsaturated.iter().map(|u| u.index).collect();
    assert_eq!(indices, vec![Some(9), Some(12), Some(15)]);
}

#[test]
fn sort_orders_unsaturation_before_index() {
    let mut acid = FattyAcid {
        carbons: 18,
        unsaturated: vec![
            Unsaturated {
                index: Some(9),
                isomerism: Some(Isomerism::Cis),
                unsaturation: Some(Unsaturation::Two),
            },
            Unsaturated {
                index: Some(12),
                isomerism: Some(Isomerism::Cis),
                unsaturation: Some(Unsaturation::One),
            },
        ],
    };
    acid.sort();
    assert_eq!(acid.unsaturated[0].index, Some(12));
    assert_eq!(acid.unsaturated[0].unsaturation, Some(Unsaturation::One));
    assert_eq!(acid.unsaturated[1].index, Some(9));
    assert_eq!(acid.unsaturated[1].unsaturation, Some(Unsaturation::Two));
}

#[test]
fn sort_orders_trans_before_cis() {
    let mut acid = FattyAcid {
        carbons: 18,
        unsaturated: vec![
            Unsaturated {
                index: Some(9),
                isomerism: Some(Isomerism::Cis),
                unsaturation: Some(Unsaturation::One),
            },
            Unsaturated {
                index: Some(12),
                isomerism: Some(Isomerism::Trans),
                unsaturation: Some(Unsaturation::One),
            },
        ],
    };
    acid.sort();
    assert_eq!(acid.unsaturated[0].isomerism, Some(Isomerism::Trans));
    assert_eq!(acid.unsaturated[1].isomerism, Some(Isomerism::Cis));
}

#[test]
fn derived_quantities() {
    let acid = oleic_like(18, &[9, 12]);
    assert_eq!(acid.b(), 17);
    assert_eq!(acid.u(), 2);
    assert_eq!(acid.c(), 18);
    assert_eq!(acid.h(), 32);
    assert_eq!(acid.ecn(), 14);
    assert!(!acid.s());
    let saturated = FattyAcid::new(16);
    assert_eq!(saturated.u(), 0);
    assert!(saturated.s());
}

#[test]
fn unsaturation_weighs_double_bonds() {
    let acid = FattyAcid {
        carbons: 18,
        unsaturated: vec![
            Unsaturated {
                index: Some(9),
                isomerism: Some(Isomerism::Cis),
                unsaturation: Some(Unsaturation::One),
            },
            Unsaturated {
                index: Some(12),
                isomerism: Some(Isomerism::Cis),
                unsaturation: Some(Unsaturation::Two),
            },
        ],
    };
    assert_eq!(acid.u(), 3);
}

#[test]
fn isomerism_conversions() {
    assert_eq!(Isomerism::try_from(1), Ok(Isomerism::Cis));
    assert_eq!(Isomerism::try_from(-3), Ok(Isomerism::Trans));
    assert_eq!(Isomerism::try_from(0), Err(0));
    assert_eq!(i8::from(Isomerism::Cis), 1);
    assert_eq!(i8::from(Isomerism::Trans), -1);
}

#[test]
fn unsaturation_conversions() {
    assert_eq!(Unsaturation::try_from(1), Ok(Unsaturation::One));
    assert_eq!(Unsaturation::try_from(2), Ok(Unsaturation::Two));
    assert_eq!(Unsaturation::try_from(3), Err(3));
    assert_eq!(Unsaturation::default(), Unsaturation::One);
}

#[test]
fn structural_equality_and_hash() {
    let a = oleic_like(18, &[9]);
    let b = oleic_like(18, &[9]);
    let c = oleic_like(18, &[10]);
    assert_eq!(a, b);
    assert_ne!(a, c);
    assert_eq!(a.identity_hash(), b.identity_hash());
    assert_ne!(a.identity_hash(), c.identity_hash());
    assert_ne!(a.identity_hash(), FattyAcid::new(18).identity_hash());
}

#[test]
fn clone_keeps_content() {
    let a = oleic_like(20, &[5, 8, 11]);
    let b = a.clone();
    assert_eq!(a, b);
}
