//! The interactive session's state machine: pick a device, multi-select
//! its channels, name the virtual microphones, run the dashboard. Each
//! screen turns a key action into a state change and, sometimes, an
//! action for the shell (start or stop capture, save and start). Drawing,
//! audio and timers live outside; only decisions live here.

use vstd::prelude::*;
use crate::config::{Config, VirtualMicConfig};
use crate::devices::AudioDevice;
use crate::text::{chars_to_string, dec_rep, push_dec, str_chars};
use crate::ui::KeyAction;

verus! {

/// The screen the session is on.
#[derive(Debug, Clone, PartialEq, Eq)]
pub enum AppState {
    /// A configuration exists: ask whether to reuse it.
    AskAction,
    /// Pick an input device.
    SelectDevice,
    /// Multi-select the channels to capture.
    SelectChannels,
    /// Name the selected channels.
    EnterNames,
    /// Capture runs; show the dashboard.
    Running,
    /// Something failed; offer retry.
    Error(String),
    /// Leave the session.
    Quit,
}

/// What the shell must do after a key was handled.
#[derive(Debug, Clone, Copy, PartialEq, Eq, Structural)]
pub enum AppAction {
    StartWithConfig,
    StartPreview,
    StopPreview,
    SaveAndStart,
    StopCapture,
    Restart,
    Retry,
}

/// Selected channels among the first `i`.
pub open spec fn count_selected_to(s: Seq<bool>, i: int) -> int
    decreases i,
{
    if i <= 0 {
        0
    } else {
        count_selected_to(s, i - 1) + if s[i - 1] {
            1int
        } else {
            0int
        }
    }
}

pub open spec fn count_selected(s: Seq<bool>) -> int {
    count_selected_to(s, s.len() as int)
}

/// The indices of the selected channels, ascending.
pub open spec fn selected_indices(s: Seq<bool>) -> Seq<int>
    decreases s.len(),
{
    if s.len() == 0 {
        Seq::empty()
    } else {
        selected_indices(s.drop_last()) + if s.last() {
            seq![s.len() - 1 as int]
        } else {
            Seq::<int>::empty()
        }
    }
}

pub proof fn lemma_selected_indices_range(s: Seq<bool>)
    ensures
        forall|k: int|
            0 <= k < selected_indices(s).len() ==> 0 <= #[trigger] selected_indices(s)[k]
                < s.len(),
    decreases s.len(),
{
    if s.len() > 0 {
        lemma_selected_indices_range(s.drop_last());
        assert forall|k: int| 0 <= k < selected_indices(s).len() implies 0
            <= #[trigger] selected_indices(s)[k] < s.len() by {
            let pre = selected_indices(s.drop_last());
            if k < pre.len() {
                assert(selected_indices(s)[k] == pre[k]);
            }
        }
    }
}

/// The name a channel gets when none is typed: the device name and the
/// channel number the entry slot stands for.
pub open spec fn default_name_spec(app: App, name_index: int) -> Seq<char> {
    let sel = selected_indices(app.channel_selected@);
    let num: int = if 0 <= name_index < sel.len() {
        sel[name_index]
    } else {
        name_index
    };
    (match app.current_device {
        Some(d) => d.name@,
        None => "Device"@,
    }) + " Ch"@ + dec_rep(num as nat)
}

/// The session state: current screen, configuration, and what the screens
/// accumulate. Level meters and timers are display state and live with
/// the shell.
pub struct App {
    pub state: AppState,
    pub config: Config,
    pub devices: Vec<AudioDevice>,
    pub selected_device_idx: usize,
    pub current_device: Option<AudioDevice>,
    pub channel_selected: Vec<bool>,
    pub channel_cursor: usize,
    pub channel_names: Vec<String>,
    pub name_cursor: usize,
    pub name_input: String,
    pub action_cursor: usize,
    pub dashboard_labels: Vec<String>,
}

impl App {
    /// What every screen keeps true: the name-entry cursor points at an
    /// entry, and the channel list is no longer than a device can be wide.
    pub open spec fn inv(self) -> bool {
        &&& (self.state is EnterNames ==> self.name_cursor < self.channel_names@.len())
        &&& self.channel_selected@.len() <= 0xffff
    }

    /// A fresh session: with a usable configuration it asks whether to
    /// reuse it, otherwise it starts at device selection.
    pub fn new(devices: Vec<AudioDevice>, config: Config) -> (r: App)
        ensures
            r.inv(),
            r.state == if config.device.name is Some && config.virtual_mics@.len() > 0 {
                AppState::AskAction
            } else {
                AppState::SelectDevice
            },
            r.config == config,
            r.devices == devices,
            r.selected_device_idx == 0,
            r.current_device is None,
            r.channel_selected@ == Seq::<bool>::empty(),
            r.channel_cursor == 0,
            r.channel_names@ == Seq::<String>::empty(),
            r.name_cursor == 0,
            r.name_input@ == Seq::<char>::empty(),
            r.action_cursor == 0,
            r.dashboard_labels@ == Seq::<String>::empty(),
    {
        let has_config = config.device.name.is_some() && !config.virtual_mics.is_empty();
        let state = if has_config {
            AppState::AskAction
        } else {
            AppState::SelectDevice
        };
        let channel_selected: Vec<bool> = Vec::new();
        let channel_names: Vec<String> = Vec::new();
        let dashboard_labels: Vec<String> = Vec::new();
        proof {
            assert(channel_selected@ =~= Seq::<bool>::empty());
            assert(channel_names@ =~= Seq::<String>::empty());
            assert(dashboard_labels@ =~= Seq::<String>::empty());
        }
        App {
            state,
            config,
            devices,
            selected_device_idx: 0,
            current_device: None,
            channel_selected,
            channel_cursor: 0,
            channel_names,
            name_cursor: 0,
            name_input: String::new(),
            action_cursor: 0,
            dashboard_labels,
        }
    }

    /// Dispatch a key action to the current screen; on the quit state
    /// nothing happens.
    pub fn handle_key(&mut self, action: KeyAction) -> (r: Option<AppAction>)
        requires
            old(self).inv(),
        ensures
            final(self).inv(),
            match old(self).state {
                AppState::AskAction => App::ask_action_step(*old(self), action, *final(self), r),
                AppState::SelectDevice => App::select_device_step(
                    *old(self),
                    action,
                    *final(self),
                    r,
                ),
                AppState::SelectChannels => App::select_channels_step(
                    *old(self),
                    action,
                    *final(self),
                    r,
                ),
                AppState::EnterNames => App::enter_names_step(*old(self), action, *final(self), r),
                AppState::Running => App::running_step(*old(self), action, *final(self), r),
                AppState::Error(_) => App::error_step(*old(self), action, *final(self), r),
                AppState::Quit => *final(self) == *old(self) && r is None,
            },
    {
        match self.state {
            AppState::AskAction => self.handle_ask_action(action),
            AppState::SelectDevice => self.handle_select_device(action),
            AppState::SelectChannels => self.handle_select_channels(action),
            AppState::EnterNames => self.handle_enter_names(action),
            AppState::Running => self.handle_running(action),
            AppState::Error(_) => self.handle_error(action),
            AppState::Quit => None,
        }
    }

    /// What the reuse-or-reconfigure prompt does with a key: up/down
    /// toggles between the two options, enter either starts with the
    /// current configuration or moves on to device selection, quit and
    /// escape leave.
    pub open spec fn ask_action_step(
        pre: App,
        action: KeyAction,
        post: App,
        r: Option<AppAction>,
    ) -> bool {
        match action {
            KeyAction::Up | KeyAction::Down => r is None && post == (App {
                action_cursor: if pre.action_cursor == 0 {
                    1usize
                } else {
                    0usize
                },
                ..pre
            }),
            KeyAction::Select => if pre.action_cursor == 0 {
                r == Some(AppAction::StartWithConfig) && post == pre
            } else {
                r is None && post == (App { state: AppState::SelectDevice, ..pre })
            },
            KeyAction::Quit | KeyAction::Cancel => r is None && post == (App {
                state: AppState::Quit,
                ..pre
            }),
            _ => r is None && post == pre,
        }
    }

    pub fn handle_ask_action(&mut self, action: KeyAction) -> (r: Option<AppAction>)
        requires
            old(self).inv(),
        ensures
            final(self).inv(),
            App::ask_action_step(*old(self), action, *final(self), r),
    {
        match action {
            KeyAction::Up | KeyAction::Down => {
                self.action_cursor = if self.action_cursor == 0 {
                    1
                } else {
                    0
                };
                None
            },
            KeyAction::Select => {
                if self.action_cursor == 0 {
                    Some(AppAction::StartWithConfig)
                } else {
                    self.state = AppState::SelectDevice;
                    None
                }
            },
            KeyAction::Quit | KeyAction::Cancel => {
                self.state = AppState::Quit;
                None
            },
            _ => None,
        }
    }

    /// What device selection does with a key: up/down move the cursor
    /// within the list, enter takes the device under the cursor, sizes the
    /// channel screen for its width and asks the shell to start a preview;
    /// quit and escape leave.
    pub open spec fn select_device_step(
        pre: App,
        action: KeyAction,
        post: App,
        r: Option<AppAction>,
    ) -> bool {
        match action {
            KeyAction::Up => r is None && post == (App {
                selected_device_idx: if pre.selected_device_idx > 0 {
                    (pre.selected_device_idx - 1) as usize
                } else {
                    0usize
                },
                ..pre
            }),
            KeyAction::Down => r is None && post == (App {
                selected_device_idx: if pre.selected_device_idx + 1 < pre.devices@.len() {
                    (pre.selected_device_idx + 1) as usize
                } else {
                    pre.selected_device_idx
                },
                ..pre
            }),
            KeyAction::Select => if pre.selected_device_idx < pre.devices@.len() {
                r == Some(AppAction::StartPreview) && post == (App {
                    current_device: Some(pre.devices@[pre.selected_device_idx as int]),
                    channel_selected: post.channel_selected,
                    channel_cursor: 0usize,
                    state: AppState::SelectChannels,
                    ..pre
                }) && post.channel_selected@ =~= Seq::new(
                    pre.devices@[pre.selected_device_idx as int].channels as nat,
                    |i: int| false,
                )
            } else {
                r is None && post == pre
            },
            KeyAction::Quit | KeyAction::Cancel => r is None && post == (App {
                state: AppState::Quit,
                ..pre
            }),
            _ => r is None && post == pre,
        }
    }

    pub fn handle_select_device(&mut self, action: KeyAction) -> (r: Option<AppAction>)
        requires
            old(self).inv(),
        ensures
            final(self).inv(),
            App::select_device_step(*old(self), action, *final(self), r),
    {
        match action {
            KeyAction::Up => {
                if self.selected_device_idx > 0 {
                    self.selected_device_idx = self.selected_device_idx - 1;
                }
                None
            },
            KeyAction::Down => {
                let len = self.devices.len();
                if len > 0 && self.selected_device_idx < len - 1 {
                    self.selected_device_idx = self.selected_device_idx + 1;
                }
                None
            },
            KeyAction::Select => {
                if self.selected_device_idx < self.devices.len() {
                    let d = &self.devices[self.selected_device_idx];
                    let device = AudioDevice {
                        name: d.name.clone(),
                        channels: d.channels,
                        sample_rate: d.sample_rate,
                        index: d.index,
                    };
                    proof {
                        assert(device == old(self).devices@[old(self).selected_device_idx as int]);
                    }
                    let width = device.channels as usize;
                    let mut selected: Vec<bool> = Vec::new();
                    let mut i: usize = 0;
                    while i < width
                        invariant
                            i <= width,
                            selected@ == Seq::new(i as nat, |k: int| false),
                        decreases width - i,
                    {
                        selected.push(false);
                        i = i + 1;
                        assert(selected@ =~= Seq::new(i as nat, |k: int| false));
                    }
                    self.current_device = Some(device);
                    self.channel_selected = selected;
                    self.channel_cursor = 0;
                    self.state = AppState::SelectChannels;
                    Some(AppAction::StartPreview)
                } else {
                    None
                }
            },
            KeyAction::Quit | KeyAction::Cancel => {
                self.state = AppState::Quit;
                None
            },
            _ => None,
        }
    }

    /// What channel multi-select does with a key: up/down move the
    /// cursor, space toggles the channel under it, enter confirms once at
    /// least one channel is selected and prepares one empty name slot per
    /// selection; escape goes back to device selection and stops the
    /// preview.
    pub open spec fn select_channels_step(
        pre: App,
        action: KeyAction,
        post: App,
        r: Option<AppAction>,
    ) -> bool {
        match action {
            KeyAction::Up => r is None && post == (App {
                channel_cursor: if pre.channel_cursor > 0 {
                    (pre.channel_cursor - 1) as usize
                } else {
                    0usize
                },
                ..pre
            }),
            KeyAction::Down => r is None && post == (App {
                channel_cursor: if pre.channel_cursor + 1 < pre.channel_selected@.len() {
                    (pre.channel_cursor + 1) as usize
                } else {
                    pre.channel_cursor
                },
                ..pre
            }),
            KeyAction::Char(c) => if c == ' ' {
                r is None && if pre.channel_cursor < pre.channel_selected@.len() {
                    post == (App { channel_selected: post.channel_selected, ..pre })
                        && post.channel_selected@ =~= pre.channel_selected@.update(
                        pre.channel_cursor as int,
                        !pre.channel_selected@[pre.channel_cursor as int],
                    )
                } else {
                    post == pre
                }
            } else {
                r is None && post == pre
            },
            KeyAction::Select => r is None && if count_selected(pre.channel_selected@) > 0 {
                post == (App {
                    channel_names: post.channel_names,
                    name_cursor: 0usize,
                    name_input: post.name_input,
                    state: AppState::EnterNames,
                    ..pre
                }) && post.channel_names@.len() == count_selected(pre.channel_selected@) && (
                forall|k: int|
                    0 <= k < post.channel_names@.len()
                        ==> #[trigger] post.channel_names@[k]@ == Seq::<char>::empty())
                    && post.name_input@ == Seq::<char>::empty()
            } else {
                post == pre
            },
            KeyAction::Cancel => r == Some(AppAction::StopPreview) && post == (App {
                state: AppState::SelectDevice,
                ..pre
            }),
            KeyAction::Quit => r is None && post == (App { state: AppState::Quit, ..pre }),
            _ => r is None && post == pre,
        }
    }

    pub fn handle_select_channels(&mut self, action: KeyAction) -> (r: Option<AppAction>)
        requires
            old(self).inv(),
        ensures
            final(self).inv(),
            App::select_channels_step(*old(self), action, *final(self), r),
    {
        match action {
            KeyAction::Up => {
                if self.channel_cursor > 0 {
                    self.channel_cursor = self.channel_cursor - 1;
                }
                None
            },
            KeyAction::Down => {
                let len = self.channel_selected.len();
                if len > 0 && self.channel_cursor < len - 1 {
                    self.channel_cursor = self.channel_cursor + 1;
                }
                None
            },
            KeyAction::Char(c) => {
                if c == ' ' {
                    if self.channel_cursor < self.channel_selected.len() {
                        let cur = self.channel_selected[self.channel_cursor];
                        self.channel_selected.set(self.channel_cursor, !cur);
                    }
                }
                None
            },
            KeyAction::Select => {
                let count = self.selected_count();
                if count > 0 {
                    let mut names: Vec<String> = Vec::new();
                    let mut i: usize = 0;
                    while i < count
                        invariant
                            i <= count,
                            names@.len() == i,
                            forall|k: int|
                                0 <= k < i ==> #[trigger] names@[k]@ == Seq::<char>::empty(),
                        decreases count - i,
                    {
                        names.push(String::new());
                        i = i + 1;
                    }
                    self.channel_names = names;
                    self.name_cursor = 0;
                    self.name_input = String::new();
                    self.state = AppState::EnterNames;
                }
                None
            },
            KeyAction::Cancel => {
                self.state = AppState::SelectDevice;
                Some(AppAction::StopPreview)
            },
            KeyAction::Quit => {
                self.state = AppState::Quit;
                None
            },
            _ => None,
        }
    }

    /// What name entry does with a key: characters extend the current
    /// name up to a fixed length, backspace shortens it, enter takes the
    /// typed name — or the default when empty — and moves to the next
    /// slot, asking the shell to save and start after the last one;
    /// escape steps back a slot, or to channel selection from the first.
    pub open spec fn enter_names_step(
        pre: App,
        action: KeyAction,
        post: App,
        r: Option<AppAction>,
    ) -> bool {
        match action {
            KeyAction::Char(c) => r is None && if pre.name_input@.len() < 32 {
                post == (App { name_input: post.name_input, ..pre }) && post.name_input@
                    == pre.name_input@.push(c)
            } else {
                post == pre
            },
            KeyAction::Backspace => r is None && post == (App {
                name_input: post.name_input,
                ..pre
            }) && post.name_input@ == if pre.name_input@.len() > 0 {
                pre.name_input@.drop_last()
            } else {
                pre.name_input@
            },
            KeyAction::Select => ({
                let entered = if pre.name_input@.len() == 0 {
                    default_name_spec(pre, pre.name_cursor as int)
                } else {
                    pre.name_input@
                };
                post.channel_names@.len() == pre.channel_names@.len()
                    && post.channel_names@[pre.name_cursor as int]@ == entered && (forall|k: int|
                    0 <= k < pre.channel_names@.len() && k != pre.name_cursor
                        ==> post.channel_names@[k] == #[trigger] pre.channel_names@[k]) && if pre.name_cursor
                    + 1 < pre.channel_names@.len() {
                    r is None && post == (App {
                        channel_names: post.channel_names,
                        name_cursor: (pre.name_cursor + 1) as usize,
                        name_input: post.name_input,
                        ..pre
                    }) && post.name_input@ == Seq::<char>::empty()
                } else {
                    r == Some(AppAction::SaveAndStart) && post == (App {
                        channel_names: post.channel_names,
                        ..pre
                    })
                }
            }),
            KeyAction::Cancel => r is None && if pre.name_cursor > 0 {
                post == (App {
                    name_cursor: (pre.name_cursor - 1) as usize,
                    name_input: post.name_input,
                    ..pre
                }) && post.name_input@ == pre.channel_names@[pre.name_cursor - 1]@
            } else {
                post == (App { state: AppState::SelectChannels, ..pre })
            },
            KeyAction::Quit => r is None && post == (App { state: AppState::Quit, ..pre }),
            _ => r is None && post == pre,
        }
    }

    pub fn handle_enter_names(&mut self, action: KeyAction) -> (r: Option<AppAction>)
        requires
            old(self).inv(),
            old(self).name_cursor < old(self).channel_names@.len(),
        ensures
            final(self).inv(),
            App::enter_names_step(*old(self), action, *final(self), r),
    {
        match action {
            KeyAction::Char(c) => {
                let mut v = str_chars(self.name_input.as_str());
                if v.len() < 32 {
                    v.push(c);
                    self.name_input = chars_to_string(&v);
                }
                None
            },
            KeyAction::Backspace => {
                let mut v = str_chars(self.name_input.as_str());
                if v.len() > 0 {
                    let _last = v.pop();
                    self.name_input = chars_to_string(&v);
                    proof {
                        assert(v@ =~= old(self).name_input@.drop_last());
                    }
                }
                None
            },
            KeyAction::Select => {
                let typed = str_chars(self.name_input.as_str());
                let entered: String = if typed.len() == 0 {
                    self.generate_default_name(self.name_cursor)
                } else {
                    chars_to_string(&typed)
                };
                self.channel_names.set(self.name_cursor, entered);
                let len = self.channel_names.len();
                if self.name_cursor < len - 1 {
                    self.name_cursor = self.name_cursor + 1;
                    self.name_input = String::new();
                    None
                } else {
                    Some(AppAction::SaveAndStart)
                }
            },
            KeyAction::Cancel => {
                if self.name_cursor > 0 {
                    self.name_cursor = self.name_cursor - 1;
                    self.name_input = self.channel_names[self.name_cursor].clone();
                } else {
                    self.state = AppState::SelectChannels;
                }
                None
            },
            KeyAction::Quit => {
                self.state = AppState::Quit;
                None
            },
            _ => None,
        }
    }

    /// What the dashboard does with a key: quit leaves, restart asks the
    /// shell to restart capture, setup returns to device selection and
    /// stops capture.
    pub open spec fn running_step(
        pre: App,
        action: KeyAction,
        post: App,
        r: Option<AppAction>,
    ) -> bool {
        match action {
            KeyAction::Quit => r is None && post == (App { state: AppState::Quit, ..pre }),
            KeyAction::Restart => r == Some(AppAction::Restart) && post == pre,
            KeyAction::Setup => r == Some(AppAction::StopCapture) && post == (App {
                state: AppState::SelectDevice,
                ..pre
            }),
            _ => r is None && post == pre,
        }
    }

    pub fn handle_running(&mut self, action: KeyAction) -> (r: Option<AppAction>)
        requires
            old(self).inv(),
        ensures
            final(self).inv(),
            App::running_step(*old(self), action, *final(self), r),
    {
        match action {
            KeyAction::Quit => {
                self.state = AppState::Quit;
                None
            },
            KeyAction::Restart => Some(AppAction::Restart),
            KeyAction::Setup => {
                self.state = AppState::SelectDevice;
                Some(AppAction::StopCapture)
            },
            _ => None,
        }
    }

    /// What the error screen does with a key: `r` retries, quit and
    /// escape leave.
    pub open spec fn error_step(
        pre: App,
        action: KeyAction,
        post: App,
        r: Option<AppAction>,
    ) -> bool {
        match action {
            KeyAction::Char(c) => if c == 'r' {
                r == Some(AppAction::Retry) && post == pre
            } else {
                r is None && post == pre
            },
            KeyAction::Restart => r == Some(AppAction::Retry) && post == pre,
            KeyAction::Quit | KeyAction::Cancel => r is None && post == (App {
                state: AppState::Quit,
                ..pre
            }),
            _ => r is None && post == pre,
        }
    }

    pub fn handle_error(&mut self, action: KeyAction) -> (r: Option<AppAction>)
        requires
            old(self).inv(),
        ensures
            final(self).inv(),
            App::error_step(*old(self), action, *final(self), r),
    {
        match action {
            KeyAction::Char(c) => {
                if c == 'r' {
                    Some(AppAction::Retry)
                } else {
                    None
                }
            },
            KeyAction::Restart => Some(AppAction::Retry),
            KeyAction::Quit | KeyAction::Cancel => {
                self.state = AppState::Quit;
                None
            },
            _ => None,
        }
    }

    /// The default name for an entry slot: device name plus the channel
    /// number the slot stands for, falling back to the slot index when it
    /// points past the selection.
    pub fn generate_default_name(&self, name_index: usize) -> (r: String)
        requires
            self.inv(),
        ensures
            r@ == default_name_spec(*self, name_index as int),
    {
        let sel = self.selected_channels();
        let num: usize = if name_index < sel.len() {
            sel[name_index]
        } else {
            name_index
        };
        let mut v: Vec<char> = match &self.current_device {
            Some(d) => str_chars(d.name.as_str()),
            None => str_chars("Device"),
        };
        let mut mid = str_chars(" Ch");
        v.append(&mut mid);
        proof {
            lemma_selected_indices_range(self.channel_selected@);
        }
        push_dec(num as u64, &mut v);
        chars_to_string(&v)
    }

    /// The indices of the selected channels, ascending.
    pub fn selected_channels(&self) -> (r: Vec<usize>)
        ensures
            r@.map_values(|u: usize| u as int) == selected_indices(self.channel_selected@),
            forall|k: int| 0 <= k < r@.len() ==> #[trigger] r@[k] < self.channel_selected@.len(),
    {
        let n = self.channel_selected.len();
        let mut r: Vec<usize> = Vec::new();
        let mut i: usize = 0;
        proof {
            assert(self.channel_selected@.take(0) =~= Seq::<bool>::empty());
            assert(r@.map_values(|u: usize| u as int) =~= Seq::<int>::empty());
        }
        while i < n
            invariant
                i <= n,
                n == self.channel_selected@.len(),
                r@.map_values(|u: usize| u as int) == selected_indices(
                    self.channel_selected@.take(i as int),
                ),
                forall|k: int| 0 <= k < r@.len() ==> #[trigger] r@[k] < i,
            decreases n - i,
        {
            let ghost before: Seq<usize> = r@;
            if self.channel_selected[i] {
                r.push(i);
            }
            proof {
                let s = self.channel_selected@;
                let t1 = s.take(i as int + 1);
                assert(t1.drop_last() =~= s.take(i as int));
                assert(t1.last() == s[i as int]);
                if s[i as int] {
                    assert(r@.map_values(|u: usize| u as int) =~= before.map_values(
                        |u: usize| u as int,
                    ) + seq![i as int]);
                    assert(selected_indices(t1) =~= selected_indices(t1.drop_last()) + seq![
                        i as int]);
                } else {
                    assert(selected_indices(t1) == selected_indices(t1.drop_last()));
                }
            }
            i = i + 1;
        }
        proof {
            assert(self.channel_selected@.take(n as int) =~= self.channel_selected@);
        }
        r
    }

    /// How many channels are selected.
    pub fn selected_count(&self) -> (r: usize)
        ensures
            r == count_selected(self.channel_selected@),
    {
        let n = self.channel_selected.len();
        let mut c: usize = 0;
        let mut i: usize = 0;
        while i < n
            invariant
                i <= n,
                c <= i,
                n == self.channel_selected@.len(),
                c == count_selected_to(self.channel_selected@, i as int),
            decreases n - i,
        {
            if self.channel_selected[i] {
                c = c + 1;
            }
            i = i + 1;
        }
        c
    }

    /// The virtual-microphone records the name entry produced: each name
    /// paired with its selected channel, in order.
    pub fn build_virtual_mics(&self) -> (r: Vec<VirtualMicConfig>)
        requires
            self.inv(),
        ensures
            r@.len() == if self.channel_names@.len() <= selected_indices(
                self.channel_selected@,
            ).len() {
                self.channel_names@.len() as int
            } else {
                selected_indices(self.channel_selected@).len() as int
            },
            forall|k: int|
                0 <= k < r@.len() ==> #[trigger] r@[k].name@ == self.channel_names@[k]@,
            forall|k: int|
                0 <= k < r@.len() ==> #[trigger] r@[k].channel == selected_indices(
                    self.channel_selected@,
                )[k],
    {
        let sel = self.selected_channels();
        let m = if self.channel_names.len() <= sel.len() {
            self.channel_names.len()
        } else {
            sel.len()
        };
        proof {
            lemma_selected_indices_range(self.channel_selected@);
        }
        let mut r: Vec<VirtualMicConfig> = Vec::new();
        let mut k: usize = 0;
        while k < m
            invariant
                k <= m,
                m <= self.channel_names@.len(),
                m <= sel@.len(),
                self.channel_selected@.len() <= 0xffff,
                sel@.map_values(|u: usize| u as int) == selected_indices(self.channel_selected@),
                forall|j: int| 0 <= j < sel@.len() ==> #[trigger] sel@[j]
                    < self.channel_selected@.len(),
                r@.len() == k,
                forall|j: int| 0 <= j < k ==> #[trigger] r@[j].name@ == self.channel_names@[j]@,
                forall|j: int|
                    0 <= j < k ==> #[trigger] r@[j].channel == selected_indices(
                        self.channel_selected@,
                    )[j],
            decreases m - k,
        {
            let mic = VirtualMicConfig {
                name: self.channel_names[k].clone(),
                channel: sel[k] as u32,
            };
            proof {
                assert(mic.name@ == self.channel_names@[k as int]@);
                assert(sel@.map_values(|u: usize| u as int)[k as int] == sel@[k as int] as int);
                assert(mic.channel == selected_indices(self.channel_selected@)[k as int]);
            }
            r.push(mic);
            k = k + 1;
        }
        r
    }

    /// Enter the dashboard after name entry: the labels are the entered
    /// names.
    pub fn start_running(&mut self)
        requires
            old(self).inv(),
        ensures
            final(self).inv(),
            *final(self) == (App {
                state: AppState::Running,
                dashboard_labels: final(self).dashboard_labels,
                ..*old(self)
            }),
            final(self).dashboard_labels@.len() == old(self).channel_names@.len(),
            forall|k: int|
                0 <= k < old(self).channel_names@.len() ==> #[trigger] final(self).dashboard_labels@[k]@ == old(self).channel_names@[k]@,
    {
        let n = self.channel_names.len();
        let mut labels: Vec<String> = Vec::new();
        let mut i: usize = 0;
        while i < n
            invariant
                i <= n,
                n == self.channel_names@.len(),
                self.channel_names@ == old(self).channel_names@,
                labels@.len() == i,
                forall|k: int|
                    0 <= k < i ==> #[trigger] labels@[k]@ == self.channel_names@[k]@,
            decreases n - i,
        {
            labels.push(self.channel_names[i].clone());
            i = i + 1;
        }
        self.dashboard_labels = labels;
        self.state = AppState::Running;
    }

    /// Enter the dashboard with the saved configuration: one label per
    /// configured microphone, `name [Ch channel]`.
    pub fn start_with_existing_config(&mut self)
        requires
            old(self).inv(),
        ensures
            final(self).inv(),
            *final(self) == (App {
                state: AppState::Running,
                dashboard_labels: final(self).dashboard_labels,
                ..*old(self)
            }),
            final(self).dashboard_labels@.len() == old(self).config.virtual_mics@.len(),
            forall|k: int|
                0 <= k < old(self).config.virtual_mics@.len() ==> #[trigger] final(self).dashboard_labels@[k]@ == old(self).config.virtual_mics@[k].name@ + " [Ch "@
                    + dec_rep(old(self).config.virtual_mics@[k].channel as nat) + "]"@,
    {
        let n = self.config.virtual_mics.len();
        let mut labels: Vec<String> = Vec::new();
        let mut i: usize = 0;
        while i < n
            invariant
                i <= n,
                n == self.config.virtual_mics@.len(),
                self.config == old(self).config,
                labels@.len() == i,
                forall|k: int|
                    0 <= k < i ==> #[trigger] labels@[k]@ == self.config.virtual_mics@[k].name@
                        + " [Ch "@ + dec_rep(self.config.virtual_mics@[k].channel as nat) + "]"@,
            decreases n - i,
        {
            let mic = &self.config.virtual_mics[i];
            let mut v = str_chars(mic.name.as_str());
            let mut mid = str_chars(" [Ch ");
            v.append(&mut mid);
            push_dec(mic.channel as u64, &mut v);
            let mut close = str_chars("]");
            v.append(&mut close);
            labels.push(chars_to_string(&v));
            i = i + 1;
        }
        self.dashboard_labels = labels;
        self.state = AppState::Running;
    }

    /// Enter the error screen with a message.
    pub fn set_error(&mut self, message: String)
        requires
            old(self).inv(),
        ensures
            final(self).inv(),
            *final(self) == (App { state: AppState::Error(message), ..*old(self) }),
    {
        self.state = AppState::Error(message);
    }
}

} // verus!
