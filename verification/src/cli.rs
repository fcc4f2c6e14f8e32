//! The command line.

use crate::config::{
    assigned, file_checked, format_get, format_show, in_force, set_value, ConfigFile, ConfigStore,
    Environment,
};
use crate::error::{AppError, AppErrorView};
use vstd::prelude::*;

verus! {

/// What was asked for on the command line.
pub struct Cli {
    /// The hook runs where there is no command.
    pub command: Option<Command>,
}

/// A command.
pub enum Command {
    /// Set up the bot and chat.
    Setup,
    /// Send a test notification.
    Test,
    /// Show or change the configuration.
    Config { command: ConfigCommand },
    /// Record an event of a subagent for diagnosis.
    ProbeSubagent,
    /// Control the background watcher.
    Daemon { command: DaemonCommand },
}

/// What to do with the background watcher.
pub enum DaemonCommand {
    Install,
    Uninstall,
    Status,
    /// Watch, in the home directory of Codex that was given when the watcher was installed.
    Run { codex_home: Option<std::path::PathBuf> },
}

/// What to do with the configuration.
pub enum ConfigCommand {
    /// Show every setting in force.
    Show,
    /// Show one setting in force.
    Get { key: String },
    /// Change one saved setting.
    Change { key: String, value: String },
    /// Remove the saved settings.
    Reset,
}

/// What a configuration command leads to.
pub enum ConfigAction {
    Print(String),
    Save(ConfigFile),
    Remove,
}

/// What a configuration command leads to, seen from outside.
pub enum ConfigActionView {
    Print(Seq<char>),
    Save(ConfigFile),
    Remove,
}

impl View for ConfigAction {
    type V = ConfigActionView;

    open spec fn view(&self) -> ConfigActionView {
        match self {
            ConfigAction::Print(text) => ConfigActionView::Print(text@),
            ConfigAction::Save(config) => ConfigActionView::Save(*config),
            ConfigAction::Remove => ConfigActionView::Remove,
        }
    }
}

/// What a configuration command leads to, with the saved configuration, if it could be
/// loaded, and the environment.
pub open spec fn config_action(
    command: ConfigCommand,
    loaded: Result<ConfigFile, AppErrorView>,
    environment: Environment,
) -> Result<ConfigActionView, AppErrorView> {
    match (command, loaded) {
        (ConfigCommand::Reset, _) => Ok(ConfigActionView::Remove),
        (_, Err(error)) => Err(error),
        (ConfigCommand::Show, Ok(file)) => match in_force(file, environment) {
            Ok(settings) => Ok(ConfigActionView::Print(settings.shown())),
            Err(error) => Err(error),
        },
        (ConfigCommand::Get { key }, Ok(file)) => match in_force(file, environment) {
            Ok(settings) => match settings.setting(key@) {
                Ok(text) => Ok(ConfigActionView::Print(text)),
                Err(error) => Err(error),
            },
            Err(error) => Err(error),
        },
        (ConfigCommand::Change { key, value }, Ok(file)) => match assigned(file, key@, value@) {
            Ok(changed) => match file_checked(changed) {
                Ok(_) => Ok(ConfigActionView::Save(changed)),
                Err(error) => Err(error),
            },
            Err(error) => Err(error),
        },
    }
}

/// The view of a saved configuration, or of why it could not be loaded.
pub open spec fn loaded_view(loaded: Result<ConfigFile, AppError>) -> Result<
    ConfigFile,
    AppErrorView,
> {
    match loaded {
        Ok(file) => Ok(file),
        Err(error) => Err(error@),
    }
}

/// Decides what a configuration command leads to.
pub fn run_config(
    command: ConfigCommand,
    loaded: Result<ConfigFile, AppError>,
    environment: &Environment,
) -> (result: Result<ConfigAction, AppError>)
    ensures
        match result {
            Ok(action) => config_action(command, loaded_view(loaded), *environment) == Ok::<
                ConfigActionView,
                AppErrorView,
            >(action@),
            Err(error) => config_action(command, loaded_view(loaded), *environment) == Err::<
                ConfigActionView,
                AppErrorView,
            >(error@),
        },
{
    if let ConfigCommand::Reset = command {
        return Ok(ConfigAction::Remove);
    }
    let mut file = match loaded {
        Ok(file) => file,
        Err(error) => {
            return Err(error);
        },
    };
    match command {
        ConfigCommand::Reset => Ok(ConfigAction::Remove),
        ConfigCommand::Show => match ConfigStore::effective(&file, environment) {
            Ok(settings) => Ok(ConfigAction::Print(format_show(&settings))),
            Err(error) => Err(error),
        },
        ConfigCommand::Get { key } => match ConfigStore::effective(&file, environment) {
            Ok(settings) => match format_get(&settings, key.as_str()) {
                Ok(text) => Ok(ConfigAction::Print(text)),
                Err(error) => Err(error),
            },
            Err(error) => Err(error),
        },
        ConfigCommand::Change { key, value } => match set_value(
            &mut file,
            key.as_str(),
            value.as_str(),
        ) {
            Ok(()) => Ok(ConfigAction::Save(file)),
            Err(error) => Err(error),
        },
    }
}

/// No command saves another token than the one that was saved.
pub proof fn law_commands_keep_token(
    command: ConfigCommand,
    file: ConfigFile,
    environment: Environment,
)
    ensures
        config_action(command, Ok(file), environment) matches Ok(ConfigActionView::Save(saved))
            ==> saved.bot_token == file.bot_token,
{
}

/// The saved settings can be removed even where they cannot be loaded.
pub proof fn law_reset_always_works(
    loaded: Result<ConfigFile, AppErrorView>,
    environment: Environment,
)
    ensures
        config_action(ConfigCommand::Reset, loaded, environment) == Ok::<
            ConfigActionView,
            AppErrorView,
        >(ConfigActionView::Remove),
{
}

/// Showing goes by the settings in force, and changes nothing: all of them, or the one that is
/// asked for.
pub proof fn law_showing_goes_by_settings_in_force(
    key: String,
    file: ConfigFile,
    environment: Environment,
)
    ensures
        match in_force(file, environment) {
            Ok(settings) => {
                &&& config_action(ConfigCommand::Show, Ok(file), environment) == Ok::<
                    ConfigActionView,
                    AppErrorView,
                >(ConfigActionView::Print(settings.shown()))
                &&& match settings.setting(key@) {
                    Ok(text) => config_action(ConfigCommand::Get { key }, Ok(file), environment)
                        == Ok::<ConfigActionView, AppErrorView>(ConfigActionView::Print(text)),
                    Err(error) => config_action(ConfigCommand::Get { key }, Ok(file), environment)
                        == Err::<ConfigActionView, _>(error),
                }
            },
            Err(error) => {
                &&& config_action(ConfigCommand::Show, Ok(file), environment) == Err::<
                    ConfigActionView,
                    _,
                >(error)
                &&& config_action(ConfigCommand::Get { key }, Ok(file), environment) == Err::<
                    ConfigActionView,
                    _,
                >(error)
            },
        },
{
}

/// A change goes by the saved settings alone: it is saved where the value can be read and the
/// limits are met, and nothing is saved where not, whatever the environment holds.
pub proof fn law_change_is_saved_within_limits(
    key: String,
    value: String,
    file: ConfigFile,
    environment: Environment,
)
    ensures
        match assigned(file, key@, value@) {
            Ok(changed) => {
                &&& 1 <= changed.max_length <= 4096 && changed.timeout_seconds >= 1
                    ==> config_action(
                    ConfigCommand::Change { key, value },
                    Ok(file),
                    environment,
                ) == Ok::<ConfigActionView, AppErrorView>(ConfigActionView::Save(changed))
                &&& !(1 <= changed.max_length <= 4096 && changed.timeout_seconds >= 1)
                    ==> config_action(
                    ConfigCommand::Change { key, value },
                    Ok(file),
                    environment,
                ) is Err
            },
            Err(error) => config_action(
                ConfigCommand::Change { key, value },
                Ok(file),
                environment,
            ) == Err::<ConfigActionView, _>(error),
        },
{
}

/// Settings that cannot be loaded are neither shown nor changed: the failure to load them is the
/// outcome.
pub proof fn law_unloaded_settings_are_left_alone(
    command: ConfigCommand,
    error: AppErrorView,
    environment: Environment,
)
    requires
        !(command is Reset),
    ensures
        config_action(command, Err(error), environment) == Err::<ConfigActionView, _>(error),
{
}

} // verus!
