//! Tests for the data model: enum codes, decoders and labels.

use wartownik::{Methodology, Presence, RankLevel};

#[test]
fn rank_codes_round_trip() {
    let mut code: i32 = 0;
    while code <= 10 {
        let rank = RankLevel::try_from(code).expect("code in range must decode");
        assert_eq!(rank.code(), code);
        code += 1;
    }
}

#[test]
fn rank_decode_rejects_out_of_range() {
    assert!(RankLevel::try_from(-1).is_err());
    assert!(RankLevel::try_from(11).is_err());
    assert!(RankLevel::try_from(255).is_err());
}

#[test]
fn rank_labels() {
    assert_eq!(RankLevel::RankNone.as_str(), "");
    assert_eq!(RankLevel::RankFirstM.as_str(), "RANK_FIRST_MALE");
    assert_eq!(RankLevel::RankFirstF.as_str(), "RANK_FIRST_FEMALE");
    assert_eq!(RankLevel::RankSecondM.as_str(), "RANK_SECOND_MALE");
    assert_eq!(RankLevel::RankSecondF.as_str(), "RANK_SECOND_FEMALE");
    assert_eq!(RankLevel::RankThirdM.as_str(), "RANK_THIRD_MALE");
    assert_eq!(RankLevel::RankThirdF.as_str(), "RANK_THIRD_FEMALE");
    assert_eq!(RankLevel::RankFourthM.as_str(), "RANK_FOURTH_MALE");
    assert_eq!(RankLevel::RankFourthF.as_str(), "RANK_FOURTH_FEMALE");
    assert_eq!(RankLevel::RankFifth.as_str(), "RANK_FIFTH");
    assert_eq!(RankLevel::RankSixth.as_str(), "RANK_SIXTH");
}

#[test]
fn methodology_codes_round_trip() {
    assert_eq!(Methodology::try_from(0).unwrap(), Methodology::Cub);
    assert_eq!(Methodology::try_from(1).unwrap(), Methodology::Scout);
    assert_eq!(Methodology::try_from(2).unwrap(), Methodology::VentureScout);
    assert_eq!(Methodology::try_from(3).unwrap(), Methodology::Rover);
    assert_eq!(Methodology::Cub.code(), 0);
    assert_eq!(Methodology::Scout.code(), 1);
    assert_eq!(Methodology::VentureScout.code(), 2);
    assert_eq!(Methodology::Rover.code(), 3);
}

#[test]
fn methodology_decode_rejects_out_of_range() {
    assert!(Methodology::try_from(-1).is_err());
    assert!(Methodology::try_from(4).is_err());
}

#[test]
fn presence_codes_round_trip() {
    assert_eq!(Presence::try_from(0).unwrap(), Presence::Out);
    assert_eq!(Presence::try_from(1).unwrap(), Presence::In);
    assert_eq!(Presence::Out.code(), 0);
    assert_eq!(Presence::In.code(), 1);
    assert!(Presence::try_from(2).is_err());
}
