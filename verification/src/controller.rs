//! The launcher controller: the live configuration, the transient entry
//! state, and the rules that user intents apply to them.
//!
//! The controller is constructed from a successfully loaded configuration
//! (a failed load is terminal for the session and never reaches it) and is
//! then the sole owner of the live document until the session ends. All
//! filesystem questions — does the typed collection path exist, does the
//! model path exist — are answered by the hosting application and handed in
//! as plain truth values; the controller's decisions are verified for
//! either answer.

use crate::codec;
use crate::config::{collection_path_invalid_text, Config, ConfigError};
use vstd::prelude::*;

verus! {

/// The live configuration together with the transient state of the entry
/// widgets: the collection path the user is composing, and the most recent
/// validation failure, if any.
pub struct LauncherController {
    pub config: Config,
    pub pending_collection: String,
    pub last_error: Option<String>,
}

/// Which family of operating systems the launcher is hosted on. Only this
/// distinction, never the configuration contents, decides the launch
/// target.
#[derive(Debug, Clone, Copy, PartialEq, Eq, Structural)]
pub enum Platform {
    Windows,
    Other,
}

/// An external command: a program and its arguments.
pub struct LaunchCommand {
    pub program: String,
    pub args: Vec<String>,
}

impl LauncherController {
    /// Enters the ready state with a loaded configuration and empty
    /// transient state.
    pub fn new(config: Config) -> (r: LauncherController)
        ensures
            r.config@ == config@,
            r.pending_collection@ == Seq::<char>::empty(),
            r.last_error is None,
    {
        let pending = String::from_str("");
        proof {
            reveal_strlit("");
        }
        LauncherController { config, pending_collection: pending, last_error: None }
    }

    /// Replaces the collection path the user is composing. Beginning a new
    /// edit clears the last error; nothing is validated until the add.
    pub fn set_pending_collection(&mut self, text: String)
        ensures
            final(self).config@ == old(self).config@,
            final(self).pending_collection@ == text@,
            final(self).last_error is None,
    {
        self.pending_collection = text;
        self.last_error = None;
    }

    /// Replaces the model path with free text. No existence validation
    /// happens on edit — only a load validates the model path — so the user
    /// can type an in-progress path before its target exists.
    pub fn set_model_path(&mut self, text: String)
        ensures
            final(self).config@.collections == old(self).config@.collections,
            final(self).config@.od_model == text@,
            final(self).pending_collection@ == old(self).pending_collection@,
            final(self).last_error is None,
    {
        self.config.od_model = text;
        self.last_error = None;
    }

    /// Tries to admit the pending path as a new collection. The hosting
    /// application reports whether that path names an existing filesystem
    /// entry; this check is the only admission rule and runs every time.
    ///
    /// When the path does not exist, nothing is mutated and the error text
    /// is recorded. When it exists, it is appended at the end of the list —
    /// duplicates are permitted — and the pending entry is cleared.
    pub fn add_collection(&mut self, pending_path_exists: bool)
        ensures
            !pending_path_exists ==> {
                &&& final(self).config@ == old(self).config@
                &&& final(self).pending_collection@ == old(self).pending_collection@
                &&& final(self).last_error matches Some(e) && e@ == collection_path_invalid_text()
            },
            pending_path_exists ==> {
                &&& final(self).config@.collections == old(self).config@.collections.push(
                    old(self).pending_collection@,
                )
                &&& final(self).config@.od_model == old(self).config@.od_model
                &&& final(self).pending_collection@ == Seq::<char>::empty()
                &&& final(self).last_error is None
            },
    {
        if !pending_path_exists {
            self.last_error = Some(String::from_str("Collection does not exist"));
        } else {
            let mut taken = String::from_str("");
            proof {
                reveal_strlit("");
            }
            core::mem::swap(&mut taken, &mut self.pending_collection);
            self.config.collections.push(taken);
            self.last_error = None;
            proof {
                assert(final(self).config@.collections =~= old(self).config@.collections.push(
                    old(self).pending_collection@,
                ));
            }
        }
    }

    /// Removes the collection at `index`, shifting the later entries down
    /// by one, so the relative order of the others is kept. An index
    /// outside the current list mutates nothing and signals the error.
    pub fn remove_collection(&mut self, index: usize) -> (r: Result<(), ConfigError>)
        ensures
            index < old(self).config@.collections.len() ==> {
                &&& r is Ok
                &&& final(self).config@.collections == old(self).config@.collections.remove(
                    index as int,
                )
            },
            index >= old(self).config@.collections.len() ==> {
                &&& r == Err::<(), ConfigError>(ConfigError::IndexOutOfRange)
                &&& final(self).config@.collections == old(self).config@.collections
            },
            final(self).config@.od_model == old(self).config@.od_model,
            final(self).pending_collection@ == old(self).pending_collection@,
            final(self).last_error == old(self).last_error,
    {
        if index >= self.config.collections.len() {
            return Err(ConfigError::IndexOutOfRange);
        }
        self.config.collections.remove(index);
        proof {
            assert(final(self).config@.collections =~= old(self).config@.collections.remove(
                index as int,
            ));
        }
        Ok(())
    }

    /// The document to persist: the current live configuration, rendered.
    /// The hosting application writes it to the configuration file and
    /// reports `ConfigWriteFailed` when the destination cannot be written;
    /// saving neither clears nor alters the last error.
    pub fn save_payload(&self) -> (r: String)
        ensures
            r@ == codec::rendered(self.config@),
    {
        codec::save_config(&self.config)
    }
}

/// The launch target of the host platform. The decision depends on the
/// platform alone, never on the configuration: the launched process reads
/// the persisted configuration file itself.
pub fn launch_command(platform: Platform) -> (r: LaunchCommand)
    ensures
        platform is Windows ==> {
            &&& r.program@ == "cmd"@
            &&& r.args.deep_view() == seq!["/C"@, "D:\\Projects\\python\\yolo-lab\\CVLAB.bat"@]
        },
        platform is Other ==> {
            &&& r.program@ == "sh"@
            &&& r.args.deep_view() == seq!["-c"@, "echo hello"@]
        },
{
    match platform {
        Platform::Windows => {
            let mut args: Vec<String> = Vec::new();
            args.push(String::from_str("/C"));
            args.push(String::from_str("D:\\Projects\\python\\yolo-lab\\CVLAB.bat"));
            proof {
                assert(args.deep_view() =~= seq![
                    "/C"@,
                    "D:\\Projects\\python\\yolo-lab\\CVLAB.bat"@,
                ]);
            }
            LaunchCommand { program: String::from_str("cmd"), args }
        },
        Platform::Other => {
            let mut args: Vec<String> = Vec::new();
            args.push(String::from_str("-c"));
            args.push(String::from_str("echo hello"));
            proof {
                assert(args.deep_view() =~= seq!["-c"@, "echo hello"@]);
            }
            LaunchCommand { program: String::from_str("sh"), args }
        },
    }
}

} // verus!
