use red_table::actions::{
    Action, ActionContext, Bindings, KeyChord, KeyCode, KeyEvent, KeyModifiers,
};

const NONE: KeyModifiers = KeyModifiers {
    control: false,
    alt: false,
    shift: false,
};
const CONTROL: KeyModifiers = KeyModifiers {
    control: true,
    alt: false,
    shift: false,
};
const SHIFT: KeyModifiers = KeyModifiers {
    control: false,
    alt: false,
    shift: true,
};

fn event(code: KeyCode, modifiers: KeyModifiers) -> KeyEvent {
    KeyEvent { code, modifiers }
}

#[test]
fn built_in_bindings_preserve_existing_navigation() {
    let bindings = Bindings::built_in();
    assert_eq!(
        bindings.action(ActionContext::Normal, event(KeyCode::Char('j'), NONE)),
        Some(Action::MoveDown)
    );
    assert_eq!(
        bindings.action(ActionContext::Normal, event(KeyCode::PageDown, NONE)),
        Some(Action::PageDown)
    );
    assert_eq!(
        bindings.action(ActionContext::Normal, event(KeyCode::Char(' '), NONE)),
        Some(Action::ToggleMark)
    );
    assert_eq!(
        bindings.action(ActionContext::Inspect, event(KeyCode::Char('s'), CONTROL)),
        Some(Action::ConfirmSelection)
    );
}

#[test]
fn escape_is_contextual_and_never_the_default_grid_quit_key() {
    let bindings = Bindings::built_in();
    let escape = event(KeyCode::Esc, NONE);

    assert_eq!(bindings.action(ActionContext::Normal, escape), None);
    assert_eq!(
        bindings.action(ActionContext::Search, escape),
        Some(Action::CancelSearch)
    );
    assert_eq!(
        bindings.action(ActionContext::Inspect, escape),
        Some(Action::CloseInspect)
    );
    assert_eq!(
        bindings.action(ActionContext::Compare, escape),
        Some(Action::CloseInspect)
    );

    for context in [
        ActionContext::Normal,
        ActionContext::Inspect,
        ActionContext::Compare,
    ] {
        assert_eq!(
            bindings.action(context, event(KeyCode::Char('q'), NONE)),
            Some(Action::Quit)
        );
    }
}

#[test]
fn replacement_rejects_conflicts_and_reserved_interrupt() {
    let mut bindings = Bindings::built_in();
    assert!(bindings
        .replace_action(ActionContext::Normal, Action::MoveLeft, &["j"])
        .is_err());
    assert!("Ctrl+c".parse::<KeyChord>().is_err());
}

#[test]
fn shifted_symbols_match_terminal_events_without_shift() {
    let bindings = Bindings::built_in();
    assert_eq!(
        bindings.action(ActionContext::Normal, event(KeyCode::Char('+'), SHIFT)),
        Some(Action::ThumbnailLarger)
    );
}

#[test]
fn help_is_derived_from_effective_bindings() {
    let mut bindings = Bindings::built_in();
    bindings
        .replace_action(ActionContext::Normal, Action::StartSearch, &["Ctrl+f"])
        .unwrap();
    let help = bindings.help_lines(ActionContext::Normal).join("\n");
    assert!(help.contains("Ctrl+f"));
    assert!(!help.lines().any(|line| line.starts_with('/')));
}

#[test]
fn a_replaced_action_answers_only_its_new_keys() {
    let mut bindings = Bindings::built_in();
    bindings
        .replace_action(ActionContext::Normal, Action::StartSearch, &["Ctrl+f", "F3"])
        .unwrap();
    assert_eq!(
        bindings.action(ActionContext::Normal, event(KeyCode::Char('f'), CONTROL)),
        Some(Action::StartSearch)
    );
    assert_eq!(
        bindings.action(ActionContext::Normal, event(KeyCode::F(3), NONE)),
        Some(Action::StartSearch)
    );
    assert_eq!(
        bindings.action(ActionContext::Normal, event(KeyCode::Char('/'), NONE)),
        None
    );
    assert_eq!(bindings.keys_for(ActionContext::Normal, Action::StartSearch), "Ctrl+f/F3");
    assert_eq!(
        bindings.action(ActionContext::Search, event(KeyCode::Esc, NONE)),
        Some(Action::CancelSearch)
    );
}

#[test]
fn the_interrupt_is_never_bound() {
    let bindings = Bindings::built_in();
    let interrupt = event(KeyCode::Char('c'), CONTROL);
    let chord = KeyChord::from_event(interrupt);
    assert!(chord.is_emergency_interrupt());
    for context in [
        ActionContext::Normal,
        ActionContext::Search,
        ActionContext::Inspect,
        ActionContext::Compare,
    ] {
        assert_eq!(bindings.action(context, interrupt), None);
    }
    let error = KeyChord::parse("Ctrl+c").unwrap_err();
    assert_eq!(error, "Ctrl+c is reserved for the emergency interrupt");
}

#[test]
fn chords_parse_and_print_in_the_same_form() {
    for text in ["q", "Space", "Ctrl+s", "Shift+F5", "Alt+Enter", "PageDown", "+"] {
        let chord = KeyChord::parse(text).unwrap();
        assert_eq!(chord.text(), text);
    }
    let upper = KeyChord::parse("J").unwrap();
    assert_eq!(upper.text(), "Shift+j");
    assert!(KeyChord::parse("Hyper+x").is_err());
    assert!(KeyChord::parse("").is_err());
}

#[test]
fn action_names_round_trip() {
    assert_eq!(Action::from_name("down"), Ok(Action::MoveDown));
    assert_eq!(Action::from_name("quality_3"), Ok(Action::SetQuality(3)));
    assert_eq!(
        Action::from_name("teleport"),
        Err("unknown action `teleport`".to_string())
    );
    assert_eq!(ActionContext::Inspect.name(), "Inspect");
}

#[test]
fn replacing_one_action_keeps_every_other_binding() {
    let before = Bindings::built_in();
    let mut after = Bindings::built_in();
    after
        .replace_action(ActionContext::Normal, Action::StartSearch, &["F3"])
        .unwrap();
    let probes = [
        event(KeyCode::Char('j'), NONE),
        event(KeyCode::Char('k'), NONE),
        event(KeyCode::Char('q'), NONE),
        event(KeyCode::Esc, NONE),
        event(KeyCode::Enter, NONE),
        event(KeyCode::Char('G'), SHIFT),
    ];
    for context in [
        ActionContext::Normal,
        ActionContext::Search,
        ActionContext::Inspect,
        ActionContext::Compare,
    ] {
        for probe in probes {
            assert_eq!(after.action(context, probe), before.action(context, probe));
        }
    }
    assert_eq!(
        after.action(ActionContext::Normal, event(KeyCode::F(3), NONE)),
        Some(Action::StartSearch)
    );
}

#[test]
fn replacing_keys_keeps_the_other_actions_keys() {
    let bindings = Bindings::built_in();
    assert_eq!(bindings.keys_for(ActionContext::Normal, Action::MoveLeft), "Left/h");
    assert_eq!(bindings.keys_for(ActionContext::Inspect, Action::PanDown), "Down/j");
    let mut replaced = Bindings::built_in();
    replaced
        .replace_action(ActionContext::Normal, Action::MoveLeft, &["a", "Left", "a"])
        .unwrap();
    assert_eq!(replaced.keys_for(ActionContext::Normal, Action::MoveLeft), "Left/a");
    assert_eq!(replaced.keys_for(ActionContext::Inspect, Action::PanLeft), "Left/h");
}
