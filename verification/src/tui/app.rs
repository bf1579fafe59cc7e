//! Screen state machine and key dispatch.
//!
//! [`App`] owns the current screen and maps key events onto it, returning a
//! [`Command`] for what goes beyond the screens (start or cancel a scan, save the
//! config, quit) while navigation, toggles and editing are handled inside. The flow
//! is linear, from setup over in-flight to completed, with no way back.

use vstd::prelude::*;
use crate::state::StateSnapshot;
use crate::text;
use crate::tui::completed;
use crate::tui::completed::{CompletedScreen, Selection};
use crate::tui::inflight;
use crate::tui::inflight::{HeaderFigures, InFlightScreen};
use crate::tui::line;
use crate::tui::line::{Line, Panel, PanelView, SpanView, Style};
use crate::tui::setup;
use crate::tui::setup::{Focus, Form, SetupScreen};

verus! {

/// Width of the help overlay, in cells.
pub const HELP_WIDTH: u16 = 46;

/// Height of the help overlay, in cells.
pub const HELP_HEIGHT: u16 = 11;

/// What the user asks for beyond the screens.
#[derive(Debug, Clone, Copy, PartialEq, Eq, Structural)]
pub enum Command {
    StartScan,
    CancelScan,
    SaveConfig,
    Quit,
}

/// A key, as far as the screens tell keys apart.
#[derive(Debug, Clone, Copy, PartialEq, Eq, Structural)]
pub enum KeyCode {
    Esc,
    Tab,
    BackTab,
    Enter,
    Backspace,
    Up,
    Down,
    Char(char),
    Other,
}

/// What happened to a key.
#[derive(Debug, Clone, Copy, PartialEq, Eq, Structural)]
pub enum KeyEventKind {
    Press,
    Repeat,
    Release,
}

/// A key event.
#[derive(Debug, Clone, Copy, PartialEq, Eq, Structural)]
pub struct KeyEvent {
    pub code: KeyCode,
    /// Whether the control key was held.
    pub ctrl: bool,
    pub kind: KeyEventKind,
}

/// The current screen.
#[derive(Debug)]
pub enum Screen {
    Setup(Box<SetupScreen>),
    InFlight(InFlightScreen),
    Completed(CompletedScreen),
}

/// The mathematical value of a [`Screen`].
pub enum ScreenView {
    Setup(Form),
    InFlight(bool),
    Completed(Selection),
}

impl View for Screen {
    type V = ScreenView;

    open spec fn view(&self) -> ScreenView {
        match *self {
            Screen::Setup(setup) => ScreenView::Setup((*setup)@),
            Screen::InFlight(inflight) => ScreenView::InFlight(inflight@),
            Screen::Completed(completed) => ScreenView::Completed(completed@),
        }
    }
}

/// The running interface: the current screen and whether the help overlay is up.
#[derive(Debug)]
pub struct App {
    pub screen: Screen,
    pub show_help: bool,
}

/// The mathematical value of an [`App`].
pub struct AppView {
    pub screen: ScreenView,
    pub show_help: bool,
}

impl View for App {
    type V = AppView;

    open spec fn view(&self) -> AppView {
        AppView { screen: self.screen@, show_help: self.show_help }
    }
}

impl AppView {
    /// The form, if there is one, is well-formed.
    pub open spec fn well_formed(self) -> bool {
        self.screen matches ScreenView::Setup(form) ==> form.well_formed()
    }
}

/// The form with the focus on the next control.
pub open spec fn next_focus(form: Form) -> Form {
    Form { focus: (form.focus + 1) % form.order.len() as int, ..form }
}

/// The form with the focus on the previous control.
pub open spec fn prev_focus(form: Form) -> Form {
    Form { focus: (form.focus - 1) % form.order.len() as int, ..form }
}

/// What a key does on the setup screen.
pub open spec fn on_setup(form: Form, key: KeyEvent) -> (Form, Option<Command>) {
    match key.code {
        KeyCode::Esc => (form, Some(Command::Quit)),
        KeyCode::Tab => (next_focus(form), None),
        KeyCode::Down => (next_focus(form), None),
        KeyCode::BackTab => (prev_focus(form), None),
        KeyCode::Up => (prev_focus(form), None),
        KeyCode::Enter => if form.focused() == Focus::Start {
            (form, Some(Command::StartScan))
        } else {
            (next_focus(form), None)
        },
        KeyCode::Backspace => (form.erased(), None),
        KeyCode::Char(c) => if c == 's' && key.ctrl {
            (form, Some(Command::SaveConfig))
        } else if c == 'q' && form.field(form.focused()) is None {
            (form, Some(Command::Quit))
        } else if c == ' ' && form.field(form.focused()) is None {
            (form.toggled(), None)
        } else {
            (form.typed(c), None)
        },
        KeyCode::Other => (form, None),
    }
}

/// What a key does on the in-flight screen, given whether the cancel confirmation is
/// showing.
pub open spec fn on_inflight(confirming: bool, key: KeyEvent) -> (bool, Option<Command>) {
    if confirming {
        match key.code {
            KeyCode::Char(c) => if c == 'y' {
                (true, Some(Command::CancelScan))
            } else {
                (c != 'n', None)
            },
            KeyCode::Esc => (false, None),
            _ => (true, None),
        }
    } else {
        match key.code {
            KeyCode::Char(c) => ((c == 'c' && key.ctrl) || c == 'q', None),
            KeyCode::Esc => (true, None),
            _ => (false, None),
        }
    }
}

/// What a key does on the completed screen.
pub open spec fn on_completed(selection: Selection, key: KeyEvent) -> (Selection, Option<Command>) {
    match key.code {
        KeyCode::Esc => (selection, Some(Command::Quit)),
        KeyCode::Down => (selection.down(), None),
        KeyCode::Up => (selection.up(), None),
        KeyCode::Char(c) => if c == 'q' {
            (selection, Some(Command::Quit))
        } else if c == 'j' {
            (selection.down(), None)
        } else if c == 'k' {
            (selection.up(), None)
        } else {
            (selection, None)
        },
        _ => (selection, None),
    }
}

/// What a key does. Releases are ignored, the help overlay swallows the key that
/// closes it, and the rest goes to the current screen.
pub open spec fn on_key(app: AppView, key: KeyEvent) -> (AppView, Option<Command>) {
    if key.kind == KeyEventKind::Release {
        (app, None)
    } else if app.show_help {
        (AppView { show_help: false, ..app }, None)
    } else if key.code == KeyCode::Char('?') {
        (AppView { show_help: true, ..app }, None)
    } else {
        match app.screen {
            ScreenView::Setup(form) => {
                let (form, command) = on_setup(form, key);
                (AppView { screen: ScreenView::Setup(form), ..app }, command)
            },
            ScreenView::InFlight(confirming) => {
                let (confirming, command) = on_inflight(confirming, key);
                (AppView { screen: ScreenView::InFlight(confirming), ..app }, command)
            },
            ScreenView::Completed(selection) => {
                let (selection, command) = on_completed(selection, key);
                (AppView { screen: ScreenView::Completed(selection), ..app }, command)
            },
        }
    }
}

impl App {
    /// Starts on the setup screen.
    pub fn new(setup: SetupScreen) -> (r: Self)
        ensures
            r@ == (AppView { screen: ScreenView::Setup(setup@), show_help: false }),
    {
        App { screen: Screen::Setup(Box::new(setup)), show_help: false }
    }

    /// Goes on to the in-flight screen when a scan starts.
    pub fn begin_scan(&mut self)
        ensures
            final(self)@ == (AppView { screen: ScreenView::InFlight(false), ..old(self)@ }),
    {
        self.screen = Screen::InFlight(InFlightScreen::new());
    }

    /// Goes on to the completed screen for a finished or cancelled scan, with
    /// `violation_count` violations to browse.
    pub fn complete(&mut self, violation_count: usize)
        ensures
            final(self)@ == (AppView {
                screen: ScreenView::Completed(
                    Selection { selected: 0, count: violation_count as nat },
                ),
                ..old(self)@
            }),
    {
        self.screen = Screen::Completed(CompletedScreen::new(violation_count));
    }

    /// The setup screen, if that is the current one.
    pub fn setup(&self) -> (r: Option<&SetupScreen>)
        ensures
            match r {
                Some(setup) => self@.screen == ScreenView::Setup(setup@),
                None => !(self@.screen is Setup),
            },
    {
        match &self.screen {
            Screen::Setup(setup) => Some(&**setup),
            _ => None,
        }
    }

    /// Maps a key event to a command, if it asks for one, applying edits inside the
    /// screen.
    pub fn handle_key(&mut self, key: KeyEvent) -> (r: Option<Command>)
        requires
            old(self)@.well_formed(),
        ensures
            (final(self)@, r) == on_key(old(self)@, key),
            final(self)@.well_formed(),
    {
        if key.kind == KeyEventKind::Release {
            return None;
        }
        if self.show_help {
            self.show_help = false;
            return None;
        }
        if key.code == KeyCode::Char('?') {
            self.show_help = true;
            return None;
        }
        match &mut self.screen {
            Screen::Setup(setup) => handle_setup(&mut **setup, key),
            Screen::InFlight(inflight) => handle_inflight(inflight, key),
            Screen::Completed(completed) => handle_completed(completed, key),
        }
    }
}

fn handle_setup(setup: &mut SetupScreen, key: KeyEvent) -> (r: Option<Command>)
    requires
        old(setup)@.well_formed(),
    ensures
        (final(setup)@, r) == on_setup(old(setup)@, key),
        final(setup)@.well_formed(),
{
    match key.code {
        KeyCode::Esc => return Some(Command::Quit),
        KeyCode::Tab => setup.focus_next(),
        KeyCode::Down => setup.focus_next(),
        KeyCode::BackTab => setup.focus_prev(),
        KeyCode::Up => setup.focus_prev(),
        KeyCode::Enter => {
            if setup.is_start_focused() {
                return Some(Command::StartScan);
            }
            setup.focus_next();
        },
        KeyCode::Backspace => setup.backspace(),
        KeyCode::Char(c) => {
            if c == 's' && key.ctrl {
                return Some(Command::SaveConfig);
            }
            if c == 'q' && !setup.focus_is_text() {
                return Some(Command::Quit);
            }
            if c == ' ' && !setup.focus_is_text() {
                setup.toggle();
            } else {
                setup.input_char(c);
            }
        },
        KeyCode::Other => {},
    }
    None
}

fn handle_inflight(inflight: &mut InFlightScreen, key: KeyEvent) -> (r: Option<Command>)
    ensures
        (final(inflight)@, r) == on_inflight(old(inflight)@, key),
{
    if inflight.is_confirming_cancel() {
        match key.code {
            KeyCode::Char(c) => {
                if c == 'y' {
                    return Some(Command::CancelScan);
                }
                if c == 'n' {
                    inflight.dismiss_cancel();
                }
            },
            KeyCode::Esc => inflight.dismiss_cancel(),
            _ => {},
        }
        return None;
    }
    match key.code {
        KeyCode::Char(c) => {
            if (c == 'c' && key.ctrl) || c == 'q' {
                inflight.request_cancel();
            }
        },
        KeyCode::Esc => inflight.request_cancel(),
        _ => {},
    }
    None
}

fn handle_completed(completed: &mut CompletedScreen, key: KeyEvent) -> (r: Option<Command>)
    ensures
        (final(completed)@, r) == on_completed(old(completed)@, key),
{
    match key.code {
        KeyCode::Esc => return Some(Command::Quit),
        KeyCode::Down => completed.select_next(),
        KeyCode::Up => completed.select_prev(),
        KeyCode::Char(c) => {
            if c == 'q' {
                return Some(Command::Quit);
            }
            if c == 'j' {
                completed.select_next();
            } else if c == 'k' {
                completed.select_prev();
            }
        },
        _ => {},
    }
    None
}

/// What the current screen shows.
#[derive(Debug)]
pub enum Shown {
    /// The form, and the line to keep in view.
    Setup { form: Panel, focused_line: usize },
    /// The header over the body, and the cancel confirmation over both.
    InFlight { header: Panel, body: Panel, modal: Option<Panel> },
    /// The summary over the list, and the line of the list to highlight.
    Completed { summary: Panel, list: Panel, highlighted: Option<usize> },
    /// Nothing: there is no scan to show.
    Nothing,
}

/// `shown` is what the screen shows of a scan.
pub open spec fn is_shown(
    shown: Shown,
    screen: ScreenView,
    scan: Option<(StateSnapshot, HeaderFigures)>,
    paths: Seq<String>,
) -> bool {
    match (screen, scan) {
        (ScreenView::Setup(form), _) => shown matches Shown::Setup {
            form: panel,
            focused_line,
        } && panel@ == setup::form_panel(form) && focused_line == setup::focused_row(
            setup::form_rows(form),
            form.focused(),
        ),
        (ScreenView::InFlight(confirming), Some((snapshot, figures))) => shown matches Shown::InFlight {
            header,
            body,
            modal,
        } && header@ == inflight::header_of(snapshot, figures) && body@ == inflight::body_of(
            snapshot,
        ) && match modal {
            Some(panel) => confirming && panel@ == inflight::cancel_modal(),
            None => !confirming,
        },
        (ScreenView::Completed(selection), Some((snapshot, figures))) => shown matches Shown::Completed {
            summary,
            list,
            highlighted,
        } && summary@ == completed::summary_of(snapshot, paths) && list@ == completed::list_of(
            snapshot,
        ) && match highlighted {
            Some(at) => completed::highlighted(
                selection,
                snapshot.recent_violations@.len(),
            ) == Some(at as nat),
            None => snapshot.recent_violations@.len() == 0,
        },
        (_, None) => shown is Nothing,
    }
}

/// One key binding.
pub open spec fn binding_line(keys: Seq<char>, description: Seq<char>) -> Seq<SpanView> {
    seq![
        line::span("  "@ + text::padded(keys, 12), Style::Accent),
        line::span(description, Style::Plain),
    ]
}

/// The help overlay.
pub open spec fn help_panel() -> PanelView {
    PanelView {
        title: " Keybindings "@,
        border: Style::Section,
        lines: seq![
            binding_line("↑/↓ · j/k"@, "navigate"@),
            binding_line("Tab"@, "next field"@),
            binding_line("Space"@, "toggle"@),
            binding_line("Enter"@, "start / drill in"@),
            binding_line("Ctrl+S"@, "save config"@),
            binding_line("Ctrl+C"@, "cancel scan"@),
            binding_line("q / Esc"@, "quit or back"@),
            binding_line("?"@, "close this help"@),
        ],
    }
}

fn bind(keys: &str, description: &str) -> (r: Line)
    ensures
        r@ == binding_line(keys@, description@),
{
    let mut padded = "  ".to_owned();
    text::push_padded(&mut padded, keys, 12);
    let mut r = Line::new();
    r.push(padded, Style::Accent);
    r.push(description.to_owned(), Style::Plain);
    assert(r@ =~= binding_line(keys@, description@));
    r
}

fn help() -> (r: Panel)
    ensures
        r@ == help_panel(),
{
    let mut lines = line::no_lines();
    line::push_line(&mut lines, bind("↑/↓ · j/k", "navigate"));
    line::push_line(&mut lines, bind("Tab", "next field"));
    line::push_line(&mut lines, bind("Space", "toggle"));
    line::push_line(&mut lines, bind("Enter", "start / drill in"));
    line::push_line(&mut lines, bind("Ctrl+S", "save config"));
    line::push_line(&mut lines, bind("Ctrl+C", "cancel scan"));
    line::push_line(&mut lines, bind("q / Esc", "quit or back"));
    line::push_line(&mut lines, bind("?", "close this help"));
    assert(line::line_views(lines@) =~= help_panel().lines);
    Panel { title: " Keybindings ".to_owned(), border: Style::Section, lines }
}

/// The scan that a screen may show.
pub open spec fn scan_of(scan: Option<(&StateSnapshot, &HeaderFigures)>) -> Option<
    (StateSnapshot, HeaderFigures),
> {
    match scan {
        Some((snapshot, figures)) => Some((*snapshot, *figures)),
        None => None,
    }
}

impl App {
    /// What the current screen shows, and the help overlay while it is up. The scan
    /// and the export paths are of use to the in-flight and completed screens only.
    pub fn render(
        &self,
        scan: Option<(&StateSnapshot, &HeaderFigures)>,
        paths: &Vec<String>,
    ) -> (r: (Shown, Option<Panel>))
        requires
            self@.well_formed(),
        ensures
            is_shown(r.0, self@.screen, scan_of(scan), paths@),
            match r.1 {
                Some(panel) => self.show_help && panel@ == help_panel(),
                None => !self.show_help,
            },
    {
        let shown = match &self.screen {
            Screen::Setup(setup) => {
                let (form, focused_line) = setup.panel();
                Shown::Setup { form, focused_line }
            },
            Screen::InFlight(inflight) => match scan {
                Some((snapshot, figures)) => Shown::InFlight {
                    header: inflight.header_panel(snapshot, figures),
                    body: inflight.body_panel(snapshot),
                    modal: inflight.modal(),
                },
                None => Shown::Nothing,
            },
            Screen::Completed(completed) => match scan {
                Some((snapshot, _)) => {
                    let (list, highlighted) = completed.list_panel(snapshot);
                    Shown::Completed {
                        summary: completed.summary_panel(snapshot, paths),
                        list,
                        highlighted,
                    }
                },
                None => Shown::Nothing,
            },
        };
        let overlay = if self.show_help {
            Some(help())
        } else {
            None
        };
        (shown, overlay)
    }
}

/// A scan is cancelled only by confirming: the confirmation has to be showing, and
/// the key has to be `y`.
pub proof fn law_cancel_requires_confirmation(app: AppView, key: KeyEvent)
    requires
        on_key(app, key).1 == Some(Command::CancelScan),
    ensures
        app.screen == ScreenView::InFlight(true),
        key.code == KeyCode::Char('y'),
{
}

/// A scan is started only by the enter key on the start button of the form.
pub proof fn law_start_requires_the_button(app: AppView, key: KeyEvent)
    requires
        on_key(app, key).1 == Some(Command::StartScan),
    ensures
        key.code == KeyCode::Enter,
        app.screen matches ScreenView::Setup(form) && form.focused() == Focus::Start,
{
}

/// The help overlay opens on every screen, and the key that closes it does nothing
/// else.
pub proof fn law_help_swallows_a_key(app: AppView, key: KeyEvent)
    requires
        key.kind != KeyEventKind::Release,
    ensures
        app.show_help ==> on_key(app, key) == (
            AppView { show_help: false, ..app },
            None::<Command>,
        ),
        !app.show_help && key.code == KeyCode::Char('?') ==> on_key(app, key) == (
            AppView { show_help: true, ..app },
            None::<Command>,
        ),
{
}

/// `q` and the escape key lead out of every screen: they quit the form and the
/// completed screen, and on the in-flight screen ask whether to cancel. A `q` that is
/// typed into a text field is text.
pub proof fn law_q_and_escape_lead_out(app: AppView, key: KeyEvent)
    requires
        key.kind != KeyEventKind::Release,
        !app.show_help,
        key.code == KeyCode::Char('q') || key.code == KeyCode::Esc,
        key.code == KeyCode::Char('q') ==> !(app.screen matches ScreenView::Setup(form)
            && form.field(form.focused()) is Some),
    ensures
        app.screen is Setup || app.screen is Completed ==> on_key(app, key) == (
            app,
            Some(Command::Quit),
        ),
        app.screen == ScreenView::InFlight(false) ==> on_key(app, key) == (
            AppView { screen: ScreenView::InFlight(true), ..app },
            None::<Command>,
        ),
{
}

/// Releasing a key never does anything.
pub proof fn law_releases_are_ignored(app: AppView, key: KeyEvent)
    requires
        key.kind == KeyEventKind::Release,
    ensures
        on_key(app, key) == (app, None::<Command>),
{
}

/// Keys never change screens: the flow is driven by the scan alone.
pub proof fn law_keys_stay_on_the_screen(app: AppView, key: KeyEvent)
    ensures
        on_key(app, key).0.screen is Setup == app.screen is Setup,
        on_key(app, key).0.screen is InFlight == app.screen is InFlight,
        on_key(app, key).0.screen is Completed == app.screen is Completed,
{
}

/// The program after a series of keys.
pub open spec fn after_keys(app: AppView, keys: Seq<KeyEvent>) -> AppView
    decreases keys.len(),
{
    if keys.len() == 0 {
        app
    } else {
        on_key(after_keys(app, keys.drop_last()), keys.last()).0
    }
}

proof fn lemma_key_keeps_targets(form: Form, key: KeyEvent)
    requires
        form.well_formed(),
    ensures
        on_setup(form, key).0.well_formed(),
        setup::same_targets(form, on_setup(form, key).0),
{
    let c = match key.code {
        KeyCode::Char(c) => c,
        _ => ' ',
    };
    setup::law_edits_keep_the_targets(form, c);
    let focus = form.focus;
    let count = form.order.len() as int;
    assert(0 <= (focus + 1) % count < count && 0 <= (focus - 1) % count < count)
        by (nonlinear_arith)
        requires
            count > 0,
    ;
}

/// Whatever is typed into a form, it stays a form over the targets that it was filled
/// with.
pub proof fn law_keys_keep_the_targets(form: Form, keys: Seq<KeyEvent>)
    requires
        form.well_formed(),
    ensures
        after_keys(
            AppView { screen: ScreenView::Setup(form), show_help: false },
            keys,
        ).screen matches ScreenView::Setup(edited) && edited.well_formed()
            && setup::same_targets(form, edited),
    decreases keys.len(),
{
    if keys.len() > 0 {
        law_keys_keep_the_targets(form, keys.drop_last());
        let app = AppView { screen: ScreenView::Setup(form), show_help: false };
        let before = after_keys(app, keys.drop_last()).screen->Setup_0;
        lemma_key_keeps_targets(before, keys.last());
    }
}

/// While the confirmation is showing, `y` cancels, `n` and the escape key go back to
/// the scan, and no other key does anything. While it is not, only `q`, the escape key
/// and control-C raise it, and nothing is cancelled.
pub proof fn law_cancel_is_asked_for_and_answered(app: AppView, key: KeyEvent)
    requires
        key.kind != KeyEventKind::Release,
        !app.show_help,
        key.code != KeyCode::Char('?'),
        app.screen is InFlight,
    ensures
        app.screen->InFlight_0 ==> on_key(app, key).1 == (if key.code == KeyCode::Char('y') {
            Some(Command::CancelScan)
        } else {
            None
        }),
        app.screen->InFlight_0 ==> on_key(app, key).0.screen->InFlight_0 == (key.code
            != KeyCode::Char('n') && key.code != KeyCode::Esc),
        !app.screen->InFlight_0 ==> on_key(app, key).1 is None,
        !app.screen->InFlight_0 ==> on_key(app, key).0.screen->InFlight_0 == (key.code
            == KeyCode::Esc || key.code == KeyCode::Char('q') || key.code == KeyCode::Char('c')
            && key.ctrl),
        !on_key(app, key).0.show_help,
{
}

/// The form is driven by the keyboard: enter on the start button starts the scan,
/// control-S saves the config, the tab and arrow keys and enter elsewhere move the
/// focus by one, and nothing that is typed asks for anything but to quit.
pub proof fn law_form_keys(form: Form, key: KeyEvent)
    requires
        key.kind != KeyEventKind::Release,
        form.well_formed(),
    ensures
        key.code == KeyCode::Enter && form.focused() == Focus::Start ==> on_setup(form, key) == (
            form,
            Some(Command::StartScan),
        ),
        key.code == KeyCode::Char('s') && key.ctrl ==> on_setup(form, key) == (
            form,
            Some(Command::SaveConfig),
        ),
        on_setup(form, key).1 == Some(Command::SaveConfig) ==> key.code == KeyCode::Char('s')
            && key.ctrl,
        key.code == KeyCode::Tab || key.code == KeyCode::Down || (key.code == KeyCode::Enter
            && form.focused() != Focus::Start) ==> on_setup(form, key) == (
            (Form {
                focus: if form.focus + 1 == form.order.len() {
                    0
                } else {
                    form.focus + 1
                },
                ..form
            }),
            None::<Command>,
        ),
        key.code == KeyCode::BackTab || key.code == KeyCode::Up ==> on_setup(form, key) == (
            (Form {
                focus: if form.focus == 0 {
                    form.order.len() - 1
                } else {
                    form.focus - 1
                },
                ..form
            }),
            None::<Command>,
        ),
        key.code == KeyCode::Other ==> on_setup(form, key) == (form, None::<Command>),
        form.field(form.focused()) is Some && (key.code is Char && !(key.code == KeyCode::Char('s')
            && key.ctrl)) ==> on_setup(form, key) == (form.typed(key.code->Char_0), None::<Command>),
        form.field(form.focused()) is None && key.code == KeyCode::Char(' ') ==> on_setup(
            form,
            key,
        ) == (form.toggled(), None::<Command>),
        key.code == KeyCode::Backspace ==> on_setup(form, key) == (form.erased(), None::<Command>),
{
    let n = form.order.len() as int;
    let f = form.focus;
    if f + 1 < n {
        assert((f + 1) % n == f + 1) by (nonlinear_arith)
            requires
                0 <= f,
                f + 1 < n,
        ;
    } else {
        assert((f + 1) % n == 0) by (nonlinear_arith)
            requires
                f + 1 == n,
                n > 0,
        ;
    }
    if f > 0 {
        assert((f - 1) % n == f - 1) by (nonlinear_arith)
            requires
                0 < f < n,
        ;
    } else {
        assert((0 - 1) % n == n - 1) by (nonlinear_arith)
            requires
                n > 0,
        ;
    }
}

/// The results are browsed with the arrow keys or `j` and `k`, one at a time and
/// within the list; other keys leave the selection where it is.
pub proof fn law_results_are_browsed(selection: Selection, key: KeyEvent)
    requires
        selection.in_range(),
    ensures
        key.code == KeyCode::Down || key.code == KeyCode::Char('j') ==> on_completed(
            selection,
            key,
        ).0.selected == (if selection.selected + 1 < selection.count {
            selection.selected + 1
        } else {
            selection.selected
        }),
        key.code == KeyCode::Up || key.code == KeyCode::Char('k') ==> on_completed(
            selection,
            key,
        ).0.selected == (if selection.selected > 0 {
            selection.selected - 1
        } else {
            0
        }),
        key.code != KeyCode::Down && key.code != KeyCode::Char('j') && key.code != KeyCode::Up
            && key.code != KeyCode::Char('k') ==> on_completed(selection, key).0.selected
            == selection.selected,
        on_completed(selection, key).0.count == selection.count,
        on_completed(selection, key).1 == (if key.code == KeyCode::Esc || key.code
            == KeyCode::Char('q') {
            Some(Command::Quit)
        } else {
            None
        }),
{
}

} // verus!
