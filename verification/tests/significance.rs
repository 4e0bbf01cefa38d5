use benford::significance::SignificanceLevel;

#[test]
fn critical_values() {
    assert_eq!(SignificanceLevel::Adot1.value_thousandths(), 1210);
    assert_eq!(SignificanceLevel::Adot05.value_thousandths(), 1330);
    assert_eq!(SignificanceLevel::Adot01.value_thousandths(), 1569);
}

#[test]
fn critical_values_as_floats() {
    assert_eq!(f64::from(SignificanceLevel::Adot1.value_thousandths()) / 1000.0, 1.21);
    assert_eq!(f64::from(SignificanceLevel::Adot05.value_thousandths()) / 1000.0, 1.330);
    assert_eq!(f64::from(SignificanceLevel::Adot01.value_thousandths()) / 1000.0, 1.569);
}

#[test]
fn level_shares() {
    assert_eq!(SignificanceLevel::Adot1.perc_hundredths(), 10);
    assert_eq!(SignificanceLevel::Adot05.perc_hundredths(), 5);
    assert_eq!(SignificanceLevel::Adot01.perc_hundredths(), 1);
}

#[test]
fn level_shares_as_floats() {
    assert_eq!(f64::from(SignificanceLevel::Adot1.perc_hundredths()) / 100.0, 0.1);
    assert_eq!(f64::from(SignificanceLevel::Adot05.perc_hundredths()) / 100.0, 0.05);
    assert_eq!(f64::from(SignificanceLevel::Adot01.perc_hundredths()) / 100.0, 0.01);
}

#[test]
fn smaller_level_has_larger_critical_value() {
    let levels: [SignificanceLevel; 3] =
        [SignificanceLevel::Adot1, SignificanceLevel::Adot05, SignificanceLevel::Adot01];
    for a in levels.iter() {
        for b in levels.iter() {
            if a.perc_hundredths() < b.perc_hundredths() {
                assert!(a.value_thousandths() > b.value_thousandths());
            }
        }
    }
}

#[test]
fn levels_compare_and_copy() {
    let level = SignificanceLevel::Adot05;
    let copy = level;
    assert_eq!(level, copy);
    assert_ne!(level, SignificanceLevel::Adot01);
    assert_eq!(format!("{:?}", level), "Adot05");
}
