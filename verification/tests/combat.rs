use combat::Character;
use combat::Error;
use combat::HitPoints;
use combat::Roll;
use combat::RollKind;
use combat::Roster;
use combat::i64_to_string;
use combat::parse_i64;

#[test]
fn plain_integer_roll_is_deterministic() {
    assert_eq!(Roll::from("17").roll(), Ok(17));
    assert_eq!(Roll::from("-3").roll(), Ok(-3));
    assert_eq!(Roll::from("+5").roll(), Ok(5));
    assert_eq!(Roll::from("0").roll(), Ok(0));
    for _ in 0..10 {
        assert_eq!(Roll::from("20").roll(), Ok(20));
    }
}

#[test]
fn malformed_formulas_are_format_errors() {
    assert_eq!(Roll::from("abc").roll(), Err(Error::Format));
    assert_eq!(Roll::from("").roll(), Err(Error::Format));
    assert_eq!(Roll::from("--5").roll(), Err(Error::Format));
    assert_eq!(Roll::from("d").roll(), Err(Error::Format));
    assert_eq!(Roll::from("dx").roll(), Err(Error::Format));
    assert_eq!(Roll::from("d0").roll(), Err(Error::Format));
    assert_eq!(Roll::from("2d6z").roll(), Err(Error::Format));
}

#[test]
fn parse_i64_handles_edges() {
    assert_eq!(parse_i64("9223372036854775807"), Some(i64::MAX));
    assert_eq!(parse_i64("-9223372036854775808"), Some(i64::MIN));
    assert_eq!(parse_i64("9223372036854775808"), None);
    assert_eq!(parse_i64("-9223372036854775809"), None);
    assert_eq!(parse_i64("007"), Some(7));
    assert_eq!(parse_i64("+"), None);
    assert_eq!(parse_i64(""), None);
}

#[test]
fn rendering_round_trips_through_parsing() {
    for v in [0i64, 7, -7, 42, -1000, i64::MAX, i64::MIN] {
        assert_eq!(parse_i64(&i64_to_string(v)), Some(v));
    }
    assert_eq!(i64_to_string(-12), "-12".to_string());
    assert_eq!(i64_to_string(305), "305".to_string());
}

#[test]
fn dice_rolls_stay_between_extremes() {
    for _ in 0..50 {
        let v = Roll::from("d20").roll().unwrap();
        assert!((1..=20).contains(&v));
        let w = Roll::from("2d6+3").roll().unwrap();
        assert!((5..=15).contains(&w));
    }
}

#[test]
fn advantage_rolls_stay_between_extremes() {
    for _ in 0..50 {
        let mut r = Roll::from("d20");
        r.with(RollKind::Advantage);
        let v = r.roll().unwrap();
        assert!((1..=20).contains(&v));
        let mut s = Roll::from("d20");
        s.with(RollKind::Disadvantage);
        let w = s.roll().unwrap();
        assert!((1..=20).contains(&w));
    }
}

#[test]
fn one_sided_dice_pin_the_evaluator_down() {
    // 3d1 can only total 3, and 2d1+5 only 7: a lazy evaluator that
    // ignored the formula would fail here.
    assert_eq!(Roll::from("3d1").roll(), Ok(3));
    assert_eq!(Roll::from("2d1+5").roll(), Ok(7));
    assert_eq!(Roll::from("2d1-5").roll(), Ok(-3));
    assert_eq!(Roll::from("1000d1").roll(), Ok(1000));
    let mut r = Roll::from("4d1");
    r.with(RollKind::Advantage);
    assert_eq!(r.roll(), Ok(4));
}

#[test]
fn large_formulas_are_accepted() {
    for _ in 0..10 {
        let v = Roll::from("d10000").roll().unwrap();
        assert!((1..=10000).contains(&v));
    }
}

#[test]
fn opposed_modifiers_cancel() {
    let mut r = Roll::from("d20");
    r.with(RollKind::Advantage).with(RollKind::Disadvantage);
    assert_eq!(r.kind(), RollKind::Cancelled);
    let mut s = Roll::from("d20");
    s.with(RollKind::Disadvantage).with(RollKind::Advantage);
    assert_eq!(s.kind(), RollKind::Cancelled);
}

#[test]
fn cancelled_resolves_like_normal_on_plain_formulas() {
    let mut r = Roll::from("7");
    r.with(RollKind::Advantage).with(RollKind::Disadvantage);
    assert_eq!(r.kind(), RollKind::Cancelled);
    assert_eq!(r.roll(), Ok(7));
    assert_eq!(Roll::from("7").roll(), Ok(7));
}

#[test]
fn repeating_a_modifier_changes_nothing() {
    let mut r = Roll::from("d20");
    r.with(RollKind::Advantage);
    assert_eq!(r.kind(), RollKind::Advantage);
    r.with(RollKind::Advantage);
    assert_eq!(r.kind(), RollKind::Advantage);
    let mut s = Roll::from("d20");
    s.with(RollKind::Disadvantage).with(RollKind::Disadvantage);
    assert_eq!(s.kind(), RollKind::Disadvantage);
}

#[test]
fn checks_compare_against_the_difficulty() {
    assert_eq!(Roll::from("10").check(5), Ok(true));
    assert_eq!(Roll::from("10").check(10), Ok(true));
    assert_eq!(Roll::from("10").check(11), Ok(false));
    assert_eq!(Roll::from("x").check(1), Err(Error::Format));
}

#[test]
fn hit_points_from_plain_formula() {
    let hp = HitPoints::from("30").unwrap();
    assert_eq!(hp.current(), 30);
    assert_eq!(hp.max(), 30);
    assert!(hp.is_set());
    assert_eq!(hp.temp_value(), 0);
    assert!(HitPoints::from("thirty").is_err());
}

#[test]
fn temporary_hit_points_absorb_first() {
    let mut hp = HitPoints::from_parts(20, 20, 5);
    hp.deal(3);
    assert_eq!(hp.current(), 20);
    assert_eq!(hp.temp_value(), 2);
    hp.deal(6);
    assert_eq!(hp.temp_value(), 0);
    assert_eq!(hp.current(), 16);
}

#[test]
fn damage_is_floored_at_zero() {
    let mut hp = HitPoints::from_parts(10, 4, 0);
    hp.deal(100);
    assert_eq!(hp.current(), 0);
    assert_eq!(hp.max(), 10);
}

#[test]
fn temporary_hit_points_do_not_stack() {
    let mut hp = HitPoints::from_parts(10, 10, 6);
    hp.temp(4);
    assert_eq!(hp.temp_value(), 6);
    hp.temp(9);
    assert_eq!(hp.temp_value(), 9);
}

#[test]
fn healing_never_exceeds_the_maximum() {
    let mut hp = HitPoints::from_parts(30, 12, 0);
    hp.heal(5);
    assert_eq!(hp.current(), 17);
    hp.heal(1000);
    assert_eq!(hp.current(), 30);
}

#[test]
fn set_max_shifts_current_by_the_delta() {
    let mut hp = HitPoints::from_parts(30, 21, 0);
    hp.set_max("40").unwrap();
    assert_eq!(hp.max(), 40);
    assert_eq!(hp.current(), 31);
    hp.set_max("10").unwrap();
    assert_eq!(hp.max(), 10);
    assert_eq!(hp.current(), 1);
    assert_eq!(hp.set_max("oops"), Err(Error::Format));
    assert_eq!(hp.max(), 10);
}

#[test]
fn set_max_reports_a_shift_out_of_range() {
    let mut hp = HitPoints::from_parts(0, i64::MAX, 0);
    assert_eq!(hp.set_max("1"), Err(Error::Overflow));
    assert_eq!(hp.max(), 0);
    assert_eq!(hp.current(), i64::MAX);
}

#[test]
fn unset_maximum_never_means_dead() {
    let c = Character::new("Wisp", Roll::from("d20"), HitPoints::from_parts(0, 0, 0));
    assert!(!c.dead());
    assert_eq!(c.status(), "".to_string());
    let d = Character::new("Wisp", Roll::from("d20"), HitPoints::from_parts(0, -5, 0));
    assert!(!d.dead());
}

#[test]
fn zero_current_with_set_maximum_is_dead() {
    let c = Character::new("Barb", Roll::from("d20"), HitPoints::from_parts(30, 0, 0));
    assert!(c.dead());
    assert_eq!(c.status(), "DEAD".to_string());
}

#[test]
fn status_reports_current_hit_points() {
    let c = Character::new("Mage", Roll::from("d20"), HitPoints::from_parts(30, 12, 0));
    assert_eq!(c.status(), "12 HP".to_string());
}

#[test]
fn join_overwrites_and_resets_hit_points() {
    let mut roster = Roster::default();
    roster.join("Grog", Roll::from("d20"));
    roster.get_mut("Grog").unwrap().hp.set_max("30").unwrap();
    assert_eq!(roster.get("Grog").unwrap().hp.max(), 30);
    roster.join("Grog", Roll::from("5"));
    let g = roster.get("Grog").unwrap();
    assert_eq!(g.hp.max(), 0);
    assert!(!g.hp.is_set());
    assert_eq!(g.init.formula(), "5");
}

#[test]
fn kill_on_an_absent_name_is_a_no_op() {
    let mut roster = Roster::default();
    roster.join("Grog", Roll::from("d20"));
    roster.kill("Nobody");
    assert!(roster.contains("Grog"));
    roster.kill("Grog");
    assert!(!roster.contains("Grog"));
    assert!(roster.get("Grog").is_none());
}

#[test]
fn wipe_removes_exactly_the_dead() {
    let mut roster = Roster::default();
    roster.join("Alive", Roll::from("d20"));
    roster.get_mut("Alive").unwrap().hp.set_max("10").unwrap();
    roster.join("Gone", Roll::from("d20"));
    roster.get_mut("Gone").unwrap().hp.set_max("10").unwrap();
    roster.get_mut("Gone").unwrap().hp.deal(10);
    roster.join("Unset", Roll::from("d20"));
    assert!(roster.get("Gone").unwrap().dead());
    roster.wipe();
    assert!(roster.contains("Alive"));
    assert!(!roster.contains("Gone"));
    assert!(roster.contains("Unset"));
    assert_eq!(roster.len(), 2);
}

#[test]
fn roll_inits_pairs_every_name_with_a_total() {
    let mut roster = Roster::default();
    roster.join("A", Roll::from("15"));
    roster.join("B", Roll::from("3"));
    let inits = roster.roll_inits().unwrap();
    assert_eq!(inits.len(), 2);
    assert!(inits.contains(&(15, "A".to_string())));
    assert!(inits.contains(&(3, "B".to_string())));
    roster.join("C", Roll::from("not a formula"));
    assert_eq!(roster.roll_inits(), Err(Error::Format));
}

#[test]
fn roster_rebuilds_from_its_parts() {
    let mut roster = Roster::default();
    roster.join("Grog", Roll::from("d20"));
    roster.get_mut("Grog").unwrap().hp.set_max("30").unwrap();
    roster.get_mut("Grog").unwrap().hp.deal(7);
    let mut vex = Roll::from("d20+5");
    vex.with(RollKind::Advantage);
    roster.join("Vex", vex);
    roster.get_mut("Vex").unwrap().hp.set_max("20").unwrap();
    roster.get_mut("Vex").unwrap().hp.temp(4);

    let mut rebuilt = Roster::default();
    for i in 0..roster.len() {
        let c = roster.at(i);
        let mut init = Roll::from(c.init.formula());
        init.with(c.init.kind());
        let hp = HitPoints::from_parts(c.hp.max(), c.hp.current(), c.hp.temp_value());
        rebuilt.adopt(Character::new(c.name(), init, hp));
    }

    assert_eq!(rebuilt.len(), roster.len());
    for i in 0..roster.len() {
        let a = roster.at(i);
        let b = rebuilt.at(i);
        assert_eq!(a.name(), b.name());
        assert_eq!(a.init.formula(), b.init.formula());
        assert_eq!(a.init.kind(), b.init.kind());
        assert_eq!(a.hp.max(), b.hp.max());
        assert_eq!(a.hp.current(), b.hp.current());
        assert_eq!(a.hp.temp_value(), b.hp.temp_value());
    }
}

#[test]
fn damage_before_a_maximum_is_set_is_harmless() {
    let mut roster = Roster::default();
    roster.join("Grog", Roll::from("d20"));
    roster.get_mut("Grog").unwrap().hp.deal(10);
    let g = roster.get("Grog").unwrap();
    assert!(!g.dead());
    assert_eq!(g.status(), "".to_string());
}

#[test]
fn overkill_damage_floors_at_zero_and_kills() {
    let mut roster = Roster::default();
    roster.join("Grog", Roll::from("d20"));
    roster.get_mut("Grog").unwrap().hp.set_max("30").unwrap();
    roster.get_mut("Grog").unwrap().hp.deal(35);
    let g = roster.get("Grog").unwrap();
    assert_eq!(g.hp.current(), 0);
    assert!(g.dead());
    assert_eq!(g.status(), "DEAD".to_string());
}

#[test]
fn temp_buffer_takes_its_share_of_the_damage() {
    let mut roster = Roster::default();
    roster.join("Grog", Roll::from("d20"));
    roster.get_mut("Grog").unwrap().hp.set_max("20").unwrap();
    roster.get_mut("Grog").unwrap().hp.temp(5);
    roster.get_mut("Grog").unwrap().hp.deal(8);
    let g = roster.get("Grog").unwrap();
    assert_eq!(g.hp.temp_value(), 0);
    assert_eq!(g.hp.current(), 17);
}
