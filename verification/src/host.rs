//! The library's model of the host's plugin interface: permissions,
//! events, key presses, and the messages a plugin exchanges with the
//! host.  The surrounding application converts between these values and
//! the host's own types.

use vstd::prelude::*;

verus! {

use crate::pane::PaneId;

/// The identity the host hands a plugin.
#[derive(Debug, Clone, PartialEq)]
pub struct PluginIds {
    pub plugin_id: u32,
    pub zellij_pid: u32,
    pub initial_cwd: String,
}

/// A permission a plugin may request.
#[derive(Debug, Clone, Copy, PartialEq, Eq, Structural, Hash)]
pub enum PermissionType {
    ReadApplicationState,
    ChangeApplicationState,
    OpenFiles,
    RunCommands,
    OpenTerminalsOrPlugins,
    WriteToStdin,
    WebAccess,
    ReadCliPipes,
    MessageAndLaunchOtherPlugins,
    FullHdAccess,
}

/// An event class a plugin may subscribe to.
#[derive(Debug, Clone, Copy, PartialEq, Eq, Structural, Hash)]
pub enum EventType {
    ModeUpdate,
    TabUpdate,
    PaneUpdate,
    SessionUpdate,
    Key,
    Mouse,
    Timer,
    CopyToClipboard,
    SystemClipboardFailure,
    InputReceived,
    Visible,
    CommandPaneOpened,
    CommandPaneExited,
    CustomMessage,
    FileSystemCreate,
    FileSystemRead,
    FileSystemUpdate,
    FileSystemDelete,
    PermissionRequestResult,
    HostFolderChanged,
}

/// The host's answer to a permission request.
#[derive(Debug, Clone, Copy, PartialEq, Eq, Structural)]
pub enum PermissionStatus {
    Granted,
    Denied,
}

/// The host's input-mode snapshot.
#[derive(Debug, Clone, PartialEq, Default)]
pub struct ModeInfo {}

/// One session the host knows of.
#[derive(Debug, Clone, Default)]
pub struct SessionInfo {
    pub name: String,
}

/// One tab of the host.
#[derive(Debug, Clone)]
pub struct TabInfo {
    pub position: usize,
    pub name: String,
    pub active: bool,
    pub panes_to_hide: usize,
    pub is_fullscreen_active: bool,
    pub is_sync_panes_active: bool,
    pub are_floating_panes_visible: bool,
    pub other_focused_clients: Vec<u16>,
    pub active_swap_layout_name: Option<String>,
    pub is_swap_layout_dirty: bool,
}

/// A mouse event of the host.
#[derive(Debug, Clone, PartialEq)]
pub struct Mouse {}

/// Where a copy goes.
#[derive(Debug, Clone, Copy, PartialEq, Eq, Structural)]
pub enum CopyDestination {
    Command,
    Primary,
    System,
}

/// A key without its modifiers.
#[derive(Debug, Clone, Copy, PartialEq, Eq, Structural, Hash)]
pub enum BareKey {
    Enter,
    Tab,
    Backspace,
    Esc,
    Left,
    Right,
    Up,
    Down,
    Home,
    End,
    PageUp,
    PageDown,
    BackTab,
    Delete,
    Insert,
    F(u8),
    Char(char),
}

/// A modifier held with a key.
#[derive(Debug, Clone, Copy, PartialEq, Eq, Structural, Hash)]
pub enum KeyModifier {
    Ctrl,
    Alt,
    Shift,
    Super,
}

/// One key press: the bare key and the modifiers held with it.
#[derive(Debug, Clone)]
pub struct Key {
    pub bare_key: BareKey,
    pub modifiers: Vec<KeyModifier>,
}

impl Key {
    /// Whether the key was pressed without any modifier.
    pub fn has_no_modifiers(&self) -> (r: bool)
        ensures
            r == (self.modifiers@.len() == 0),
    {
        self.modifiers.is_empty()
    }

    /// Whether exactly the given modifiers were held.
    pub fn has_modifiers(&self, modifiers: &[KeyModifier]) -> (r: bool)
        ensures
            r == (self.modifiers@ == modifiers@),
    {
        if self.modifiers.len() != modifiers.len() {
            proof {
                assert(self.modifiers@ != modifiers@);
            }
            return false;
        }
        let mut i: usize = 0;
        while i < modifiers.len()
            invariant
                i <= modifiers@.len(),
                self.modifiers@.len() == modifiers@.len(),
                forall|k: int| 0 <= k < i ==> self.modifiers@[k] == modifiers@[k],
            decreases modifiers@.len() - i,
        {
            if !(self.modifiers[i] == modifiers[i]) {
                proof {
                    assert(self.modifiers@ != modifiers@);
                }
                return false;
            }
            i = i + 1;
        }
        proof {
            assert(self.modifiers@ =~= modifiers@);
        }
        true
    }
}

/// A file the plugin asks the host to open.
#[derive(Debug, Clone)]
pub struct FileToOpen {
    pub path: String,
    pub line_number: Option<usize>,
    pub cwd: Option<String>,
}

impl FileToOpen {
    /// A request to open the given path, with no line and no directory.
    pub fn new(path: String) -> (r: FileToOpen)
        ensures
            r.path == path,
            r.line_number is None,
            r.cwd is None,
    {
        FileToOpen { path, line_number: None, cwd: None }
    }
}

/// The coordinates of a floating pane.
#[derive(Debug, Clone, Default)]
pub struct FloatingPaneCoordinates {}

/// What a launched plugin instance should look like.
#[derive(Debug, Clone)]
pub struct NewPluginArgs {
    pub should_float: Option<bool>,
    pub pane_id_to_replace: Option<PaneId>,
    pub pane_title: Option<String>,
    pub cwd: Option<String>,
    pub skip_cache: bool,
}

/// The payload of a message to another plugin.
#[derive(Debug, Clone)]
pub struct InternalMessageToPlugin {
    pub plugin_url: Option<String>,
    pub plugin_config: Vec<(String, String)>,
    pub message_name: String,
    pub message_payload: Option<String>,
    pub message_args: Vec<(String, String)>,
    pub new_plugin_args: Option<NewPluginArgs>,
}

/// A message addressed to another plugin, built up field by field.
#[derive(Debug, Clone)]
pub struct MessageToPlugin {
    pub message_to_plugin: InternalMessageToPlugin,
}

impl MessageToPlugin {
    /// A fresh message carrying only its name.
    pub fn new(name: String) -> (r: MessageToPlugin)
        ensures
            r.message_to_plugin.message_name == name,
            r.message_to_plugin.plugin_url is None,
            r.message_to_plugin.plugin_config@.len() == 0,
            r.message_to_plugin.message_payload is None,
            r.message_to_plugin.message_args@.len() == 0,
            r.message_to_plugin.new_plugin_args is None,
    {
        MessageToPlugin {
            message_to_plugin: InternalMessageToPlugin {
                plugin_url: None,
                plugin_config: Vec::new(),
                message_name: name,
                message_payload: None,
                message_args: Vec::new(),
                new_plugin_args: None,
            },
        }
    }

    /// Addresses the message at a plugin location.
    pub fn with_plugin_url(self, url: String) -> (r: MessageToPlugin)
        ensures
            r.message_to_plugin.plugin_url == Some(url),
            r.message_to_plugin.message_name == self.message_to_plugin.message_name,
            r.message_to_plugin.plugin_config == self.message_to_plugin.plugin_config,
            r.message_to_plugin.message_payload == self.message_to_plugin.message_payload,
            r.message_to_plugin.message_args == self.message_to_plugin.message_args,
            r.message_to_plugin.new_plugin_args == self.message_to_plugin.new_plugin_args,
    {
        let mut m = self;
        m.message_to_plugin.plugin_url = Some(url);
        m
    }

    /// Sets the launch configuration handed to the plugin.
    pub fn with_plugin_config(self, config: Vec<(String, String)>) -> (r: MessageToPlugin)
        ensures
            r.message_to_plugin.plugin_config == config,
            r.message_to_plugin.message_name == self.message_to_plugin.message_name,
            r.message_to_plugin.plugin_url == self.message_to_plugin.plugin_url,
            r.message_to_plugin.message_payload == self.message_to_plugin.message_payload,
            r.message_to_plugin.message_args == self.message_to_plugin.message_args,
            r.message_to_plugin.new_plugin_args == self.message_to_plugin.new_plugin_args,
    {
        let mut m = self;
        m.message_to_plugin.plugin_config = config;
        m
    }

    /// Sets the message arguments.
    pub fn with_args(self, args: Vec<(String, String)>) -> (r: MessageToPlugin)
        ensures
            r.message_to_plugin.message_args == args,
            r.message_to_plugin.message_name == self.message_to_plugin.message_name,
            r.message_to_plugin.plugin_url == self.message_to_plugin.plugin_url,
            r.message_to_plugin.plugin_config == self.message_to_plugin.plugin_config,
            r.message_to_plugin.message_payload == self.message_to_plugin.message_payload,
            r.message_to_plugin.new_plugin_args == self.message_to_plugin.new_plugin_args,
    {
        let mut m = self;
        m.message_to_plugin.message_args = args;
        m
    }

    /// Asks for the launched instance to carry this pane title.
    pub fn new_plugin_instance_should_have_pane_title(self, title: String) -> (r: MessageToPlugin)
        ensures
            r.message_to_plugin.new_plugin_args is Some,
            r.message_to_plugin.new_plugin_args.unwrap().pane_title == Some(title),
            r.message_to_plugin.new_plugin_args.unwrap().pane_id_to_replace == (match self
                .message_to_plugin
                .new_plugin_args {
                Some(a) => a.pane_id_to_replace,
                None => None,
            }),
            r.message_to_plugin.message_name == self.message_to_plugin.message_name,
            r.message_to_plugin.plugin_url == self.message_to_plugin.plugin_url,
            r.message_to_plugin.plugin_config == self.message_to_plugin.plugin_config,
            r.message_to_plugin.message_args == self.message_to_plugin.message_args,
    {
        let mut m = self;
        let mut args = match m.message_to_plugin.new_plugin_args {
            Some(a) => a,
            None => NewPluginArgs {
                should_float: None,
                pane_id_to_replace: None,
                pane_title: None,
                cwd: None,
                skip_cache: false,
            },
        };
        args.pane_title = Some(title);
        m.message_to_plugin.new_plugin_args = Some(args);
        m
    }

    /// Asks for the launched instance to replace the given pane.
    pub fn new_plugin_instance_should_replace_pane(self, pane_id: PaneId) -> (r: MessageToPlugin)
        ensures
            r.message_to_plugin.new_plugin_args is Some,
            r.message_to_plugin.new_plugin_args.unwrap().pane_id_to_replace == Some(pane_id),
            r.message_to_plugin.new_plugin_args.unwrap().pane_title == (match self
                .message_to_plugin
                .new_plugin_args {
                Some(a) => a.pane_title,
                None => None,
            }),
            r.message_to_plugin.message_name == self.message_to_plugin.message_name,
            r.message_to_plugin.plugin_url == self.message_to_plugin.plugin_url,
            r.message_to_plugin.plugin_config == self.message_to_plugin.plugin_config,
            r.message_to_plugin.message_args == self.message_to_plugin.message_args,
    {
        let mut m = self;
        let mut args = match m.message_to_plugin.new_plugin_args {
            Some(a) => a,
            None => NewPluginArgs {
                should_float: None,
                pane_id_to_replace: None,
                pane_title: None,
                cwd: None,
                skip_cache: false,
            },
        };
        args.pane_id_to_replace = Some(pane_id);
        m.message_to_plugin.new_plugin_args = Some(args);
        m
    }
}

/// Where a pipe message came from.
#[derive(Debug, Clone, PartialEq, Eq, Structural)]
pub enum PipeSource {
    Cli(u32),
    Plugin(u32),
    Keybind,
}

/// A message received over a pipe.
#[derive(Debug, Clone)]
pub struct PipeMessage {
    pub source: PipeSource,
    pub name: String,
    pub payload: Option<String>,
    pub args: Vec<(String, String)>,
    pub is_private: bool,
}

} // verus!
