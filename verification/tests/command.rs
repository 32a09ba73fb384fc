use hoard::command::{config_action, Command, ConfigAction};

#[test]
fn default_command_is_help() {
    // The default command is validate if one is not given
    assert_eq!(Command::Validate, Command::default());
}

#[test]
fn config_action_prefers_conversion_then_build_then_clear() {
    assert_eq!(config_action(true, true, true), Some(ConfigAction::Convert));
    assert_eq!(config_action(false, true, true), Some(ConfigAction::BuildCache));
    assert_eq!(config_action(false, false, true), Some(ConfigAction::ClearCache));
    assert_eq!(config_action(false, false, false), None);
}
