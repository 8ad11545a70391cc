use redstone_rust::hud::{fps_counter_showhide, Visibility};

#[test]
fn f12_shows_hidden_counter() {
    assert_eq!(fps_counter_showhide(true, Visibility::Hidden), Visibility::Visible);
}

#[test]
fn f12_hides_shown_or_inherited_counter() {
    assert_eq!(fps_counter_showhide(true, Visibility::Visible), Visibility::Hidden);
    assert_eq!(fps_counter_showhide(true, Visibility::Inherited), Visibility::Hidden);
}

#[test]
fn without_f12_nothing_changes() {
    for v in [Visibility::Inherited, Visibility::Hidden, Visibility::Visible] {
        assert_eq!(fps_counter_showhide(false, v), v);
    }
}

#[test]
fn two_presses_restore_visibility() {
    for v in [Visibility::Hidden, Visibility::Visible] {
        assert_eq!(fps_counter_showhide(true, fps_counter_showhide(true, v)), v);
    }
    assert_eq!(
        fps_counter_showhide(true, fps_counter_showhide(true, Visibility::Inherited)),
        Visibility::Visible
    );
}
