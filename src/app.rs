//! The selection state machine: a cursor over the flags read from help text,
//! the value assigned to each, an edit buffer, and the command line they make.

use crate::help_parser::{argument_views, Argument, ArgumentView};
use crate::text::{join_with_spaces, join_words, lemma_views_push, pop_char, push_char, views};
use vstd::prelude::*;

verus! {

/// The tokens that one flag adds to the command line: none while its value is
/// empty; else its name, followed by the value where the flag takes one.
pub open spec fn argument_tokens(a: ArgumentView, v: Seq<char>) -> Seq<Seq<char>> {
    if v.len() == 0 {
        Seq::empty()
    } else if a.takes_value {
        seq![a.name, v]
    } else {
        seq![a.name]
    }
}

/// The tokens that the first `n` flags add, in the order of the flags.
pub open spec fn selection_tokens(
    args: Seq<ArgumentView>,
    values: Seq<Seq<char>>,
    n: int,
) -> Seq<Seq<char>>
    decreases n,
{
    if n <= 0 {
        Seq::empty()
    } else {
        selection_tokens(args, values, n - 1) + argument_tokens(args[n - 1], values[n - 1])
    }
}

/// The command line: the base command, then the tokens of the flags that have
/// a value, joined by single spaces.
pub open spec fn preview(
    command_parts: Seq<Seq<char>>,
    args: Seq<ArgumentView>,
    values: Seq<Seq<char>>,
) -> Seq<char> {
    join_words(command_parts + selection_tokens(args, values, args.len() as int))
}

/// The cursor's position after a step down, over `len` rows, wrapping at the end.
pub open spec fn next_index(cursor: Option<usize>, len: nat) -> usize {
    match cursor {
        Some(i) => if i >= len - 1 {
            0
        } else {
            (i + 1) as usize
        },
        None => 0,
    }
}

/// The cursor's position after a step up, over `len` rows, wrapping at the start.
pub open spec fn previous_index(cursor: Option<usize>, len: nat) -> usize {
    match cursor {
        Some(i) => if i == 0 {
            (len - 1) as usize
        } else {
            (i - 1) as usize
        },
        None => 0,
    }
}

/// A key press, as the session reads it.
#[derive(Clone, Copy, Debug, PartialEq, Eq, Structural)]
pub enum Key {
    Enter,
    Esc,
    Up,
    Down,
    Backspace,
    /// A character key; `control` tells whether Control was held.
    Char { c: char, control: bool },
    Other,
}

/// What the driver does after a key: read the next one, leave without running
/// the command, or run the preview.
#[derive(Clone, Copy, Debug, PartialEq, Eq, Structural)]
pub enum Step {
    Continue,
    Abort,
    Execute,
}

/// What an [`App`] holds, as plain values.
pub struct AppView {
    pub command_parts: Seq<Seq<char>>,
    pub arguments: Seq<ArgumentView>,
    pub cursor: Option<usize>,
    pub values: Seq<Seq<char>>,
    pub preview: Seq<char>,
    pub input_mode: bool,
    pub input: Seq<char>,
}

impl AppView {
    /// One value for each flag, a cursor on a flag whenever there is one, and
    /// a preview that matches the values.
    pub open spec fn wf(self) -> bool {
        &&& self.values.len() == self.arguments.len()
        &&& self.arguments.len() <= usize::MAX
        &&& match self.cursor {
            Some(i) => i < self.arguments.len(),
            None => self.arguments.len() == 0,
        }
        &&& self.preview == preview(self.command_parts, self.arguments, self.values)
    }

    pub open spec fn with_cursor(self, i: usize) -> AppView {
        AppView { cursor: Some(i), ..self }
    }

    pub open spec fn next(self) -> AppView {
        if self.arguments.len() == 0 {
            self
        } else {
            self.with_cursor(next_index(self.cursor, self.arguments.len()))
        }
    }

    pub open spec fn previous(self) -> AppView {
        if self.arguments.len() == 0 {
            self
        } else {
            self.with_cursor(previous_index(self.cursor, self.arguments.len()))
        }
    }

    pub open spec fn start_input(self) -> AppView {
        match self.cursor {
            Some(i) => AppView { input_mode: true, input: self.values[i as int], ..self },
            None => self,
        }
    }

    /// The values once `input` is stored under the cursor.
    pub open spec fn confirmed_values(self) -> Seq<Seq<char>> {
        match self.cursor {
            Some(i) => self.values.update(i as int, self.input),
            None => self.values,
        }
    }

    pub open spec fn confirm_input(self) -> AppView {
        match self.cursor {
            Some(i) => AppView {
                values: self.confirmed_values(),
                preview: preview(self.command_parts, self.arguments, self.confirmed_values()),
                input_mode: false,
                input: Seq::empty(),
                ..self
            },
            None => AppView { input_mode: false, input: Seq::empty(), ..self },
        }
    }

    pub open spec fn cancel_input(self) -> AppView {
        AppView { input_mode: false, input: Seq::empty(), ..self }
    }

    pub open spec fn push_input(self, c: char) -> AppView {
        AppView { input: self.input.push(c), ..self }
    }

    /// The state and step after `key`. While editing, keys edit the buffer;
    /// else they move the cursor, start an edit, or end the session.
    pub open spec fn handle_key(self, key: Key) -> (AppView, Step) {
        if self.input_mode {
            match key {
                Key::Enter => (self.confirm_input(), Step::Continue),
                Key::Esc => (self.cancel_input(), Step::Continue),
                Key::Char { c, control } => (self.push_input(c), Step::Continue),
                Key::Backspace => (self.pop_input(), Step::Continue),
                _ => (self, Step::Continue),
            }
        } else {
            match key {
                Key::Char { c, control } => if c == 'q' {
                    (self, Step::Abort)
                } else if c == 'x' && control {
                    (self, Step::Execute)
                } else {
                    (self, Step::Continue)
                },
                Key::Esc => (self, Step::Abort),
                Key::Down => (self.next(), Step::Continue),
                Key::Up => (self.previous(), Step::Continue),
                Key::Enter => (self.start_input(), Step::Continue),
                _ => (self, Step::Continue),
            }
        }
    }

    pub open spec fn pop_input(self) -> AppView {
        if self.input.len() == 0 {
            self
        } else {
            AppView { input: self.input.drop_last(), ..self }
        }
    }
}

/// The state after `k` steps down.
pub open spec fn next_times(s: AppView, k: nat) -> AppView
    decreases k,
{
    if k == 0 {
        s
    } else {
        next_times(s, (k - 1) as nat).next()
    }
}

/// The state after `k` steps up.
pub open spec fn previous_times(s: AppView, k: nat) -> AppView
    decreases k,
{
    if k == 0 {
        s
    } else {
        previous_times(s, (k - 1) as nat).previous()
    }
}

proof fn lemma_next_times_add(s: AppView, a: nat, b: nat)
    ensures
        next_times(s, a + b) == next_times(next_times(s, a), b),
    decreases b,
{
    if b > 0 {
        lemma_next_times_add(s, a, (b - 1) as nat);
        assert((a + b - 1) as nat == a + (b - 1) as nat);
    }
}

proof fn lemma_previous_times_add(s: AppView, a: nat, b: nat)
    ensures
        previous_times(s, a + b) == previous_times(previous_times(s, a), b),
    decreases b,
{
    if b > 0 {
        lemma_previous_times_add(s, a, (b - 1) as nat);
        assert((a + b - 1) as nat == a + (b - 1) as nat);
    }
}

proof fn lemma_next_times_climb(s: AppView, c: usize, k: nat)
    requires
        c + k < s.arguments.len() <= usize::MAX,
    ensures
        next_times(s.with_cursor(c), k) == s.with_cursor((c + k) as usize),
    decreases k,
{
    if k > 0 {
        lemma_next_times_climb(s, c, (k - 1) as nat);
    }
}

proof fn lemma_previous_times_descend(s: AppView, c: usize, k: nat)
    requires
        k <= c < s.arguments.len() <= usize::MAX,
    ensures
        previous_times(s.with_cursor(c), k) == s.with_cursor((c - k) as usize),
    decreases k,
{
    if k > 0 {
        lemma_previous_times_descend(s, c, (k - 1) as nat);
    }
}

/// Stepping down once for each flag brings the cursor back where it started,
/// and so does stepping up as often.
pub proof fn lemma_cursor_cycles(s: AppView)
    requires
        s.wf(),
        s.arguments.len() > 0,
    ensures
        next_times(s, s.arguments.len()) == s,
        previous_times(s, s.arguments.len()) == s,
{
    let n = s.arguments.len();
    let c = s.cursor->0;
    assert(s.with_cursor(c) == s);
    // down: to the last flag, over to the first, and up to `c` again
    lemma_next_times_climb(s, c, (n - 1 - c) as nat);
    assert(next_times(s, (n - 1 - c) as nat) == s.with_cursor((n - 1) as usize));
    assert(((n - c) as nat - 1) as nat == (n - 1 - c) as nat);
    assert(next_times(s, (n - c) as nat) == s.with_cursor(0));
    lemma_next_times_climb(s, 0, c as nat);
    lemma_next_times_add(s, (n - c) as nat, c as nat);
    assert(((n - c) as nat + c as nat) as nat == n);
    // up: to the first flag, over to the last, and down to `c` again
    lemma_previous_times_descend(s, c, c as nat);
    assert(previous_times(s, c as nat) == s.with_cursor(0));
    assert(((c + 1) as nat - 1) as nat == c as nat);
    assert(previous_times(s, (c + 1) as nat) == s.with_cursor((n - 1) as usize));
    lemma_previous_times_descend(
        s.with_cursor((n - 1) as usize),
        (n - 1) as usize,
        (n - 1 - c) as nat,
    );
    assert(s.with_cursor((n - 1) as usize).with_cursor(c) == s);
    lemma_previous_times_add(s, (c + 1) as nat, (n - 1 - c) as nat);
    assert(((c + 1) as nat + (n - 1 - c) as nat) as nat == n);
}

/// The state once an edit of the flag under the cursor holds `input`.
pub open spec fn editing(s: AppView, input: Seq<char>) -> AppView {
    AppView { input_mode: true, input, ..s }
}

/// Confirming the same buffer a second time changes neither the values nor
/// the preview.
pub proof fn lemma_confirm_idempotent(s: AppView, input: Seq<char>)
    requires
        s.wf(),
    ensures
        ({
            let once = editing(s, input).confirm_input();
            let twice = editing(once, input).confirm_input();
            twice.values == once.values && twice.preview == once.preview
        }),
{
    let once = editing(s, input).confirm_input();
    if s.cursor is Some {
        let i = s.cursor->0 as int;
        assert(once.values.update(i, input) =~= once.values);
    }
}

/// The preview depends on the base command, the flags and the values alone:
/// equal inputs give equal command lines.
pub proof fn lemma_preview_is_a_function(
    p1: Seq<String>,
    a1: Seq<Argument>,
    v1: Seq<String>,
    p2: Seq<String>,
    a2: Seq<Argument>,
    v2: Seq<String>,
)
    requires
        views(p1) == views(p2),
        argument_views(a1) == argument_views(a2),
        views(v1) == views(v2),
    ensures
        preview(views(p1), argument_views(a1), views(v1)) == preview(
            views(p2),
            argument_views(a2),
            views(v2),
        ),
{
}

/// A value stored by confirming an edit is what the next edit of that flag
/// starts from.
pub proof fn lemma_confirm_then_edit(s: AppView, input: Seq<char>)
    requires
        s.wf(),
        s.cursor is Some,
    ensures
        editing(s, input).confirm_input().start_input().input == input,
        editing(s, input).confirm_input().start_input().input_mode,
{
}

/// Every operation of the session keeps it well formed.
pub proof fn lemma_operations_keep_wf(s: AppView, c: char, key: Key)
    requires
        s.wf(),
    ensures
        s.next().wf(),
        s.previous().wf(),
        s.start_input().wf(),
        s.confirm_input().wf(),
        s.cancel_input().wf(),
        s.push_input(c).wf(),
        s.pop_input().wf(),
        s.handle_key(key).0.wf(),
{
}

/// The session: the base command, the flags, the value of each, the cursor,
/// and the edit buffer.
pub struct App {
    pub command_parts: Vec<String>,
    pub arguments: Vec<Argument>,
    pub cursor: Option<usize>,
    pub selected_values: Vec<String>,
    pub preview_command: String,
    pub input_mode: bool,
    pub current_input: String,
}

impl View for App {
    type V = AppView;

    open spec fn view(&self) -> AppView {
        AppView {
            command_parts: views(self.command_parts@),
            arguments: argument_views(self.arguments@),
            cursor: self.cursor,
            values: views(self.selected_values@),
            preview: self.preview_command@,
            input_mode: self.input_mode,
            input: self.current_input@,
        }
    }
}

impl App {
    /// A session over `arguments`, with no value set, the cursor on the first
    /// flag (if any) and no edit under way.
    pub fn new(command_parts: Vec<String>, arguments: Vec<Argument>) -> (r: Self)
        ensures
            r@.wf(),
            r.command_parts@ == command_parts@,
            r.arguments@ == arguments@,
            r@.cursor == (if arguments@.len() == 0 {
                None
            } else {
                Some(0usize)
            }),
            r@.values == Seq::new(arguments@.len(), |i: int| Seq::<char>::empty()),
            !r@.input_mode,
            r@.input.len() == 0,
    {
        let cursor = if arguments.len() == 0 {
            None
        } else {
            Some(0usize)
        };
        let mut selected_values: Vec<String> = Vec::new();
        while selected_values.len() < arguments.len()
            invariant
                selected_values@.len() <= arguments@.len(),
                views(selected_values@) == Seq::new(
                    selected_values@.len(),
                    |i: int| Seq::<char>::empty(),
                ),
            decreases arguments.len() - selected_values.len(),
        {
            let ghost before = selected_values@;
            let empty = String::new();
            proof {
                lemma_views_push(before, empty);
            }
            selected_values.push(empty);
            assert(views(selected_values@) =~= Seq::new(
                selected_values@.len(),
                |i: int| Seq::<char>::empty(),
            ));
        }
        let preview_command = Self::build_preview(
            command_parts.as_slice(),
            arguments.as_slice(),
            selected_values.as_slice(),
        );
        App {
            command_parts,
            arguments,
            cursor,
            selected_values,
            preview_command,
            input_mode: false,
            current_input: String::new(),
        }
    }

    /// The command line that the base command and the values make.
    pub fn build_preview(
        command_parts: &[String],
        arguments: &[Argument],
        selected_values: &[String],
    ) -> (r: String)
        requires
            arguments@.len() <= selected_values@.len(),
        ensures
            r@ == preview(views(command_parts@), argument_views(arguments@), views(selected_values@)),
    {
        let ghost args = argument_views(arguments@);
        let ghost values = views(selected_values@);
        let mut parts: Vec<String> = Vec::new();
        let mut k: usize = 0;
        while k < command_parts.len()
            invariant
                k <= command_parts@.len(),
                views(parts@) == views(command_parts@).take(k as int),
            decreases command_parts.len() - k,
        {
            let part = command_parts[k].clone();
            proof {
                lemma_views_push(parts@, part);
            }
            parts.push(part);
            assert(views(parts@) =~= views(command_parts@).take(k + 1));
            k += 1;
        }
        assert(views(command_parts@).take(k as int) =~= views(command_parts@));
        let mut i: usize = 0;
        while i < arguments.len()
            invariant
                i <= arguments@.len() <= selected_values@.len(),
                args == argument_views(arguments@),
                values == views(selected_values@),
                views(parts@) == views(command_parts@) + selection_tokens(args, values, i as int),
            decreases arguments.len() - i,
        {
            let ghost before = views(parts@);
            let arg = &arguments[i];
            if !selected_values[i].as_str().is_empty() {
                let name = arg.name.clone();
                proof {
                    lemma_views_push(parts@, name);
                }
                parts.push(name);
                if arg.takes_value {
                    let value = selected_values[i].clone();
                    proof {
                        lemma_views_push(parts@, value);
                    }
                    parts.push(value);
                }
            }
            assert(views(parts@) =~= before + argument_tokens(args[i as int], values[i as int]));
            assert(views(command_parts@) + selection_tokens(args, values, i + 1) =~= before
                + argument_tokens(args[i as int], values[i as int]));
            i += 1;
        }
        join_with_spaces(&parts)
    }

    /// Renders the preview again from the current values.
    pub fn update_preview(&mut self)
        requires
            old(self).arguments@.len() <= old(self).selected_values@.len(),
        ensures
            final(self)@ == (AppView {
                preview: preview(old(self)@.command_parts, old(self)@.arguments, old(self)@.values),
                ..old(self)@
            }),
            final(self).command_parts@ == old(self).command_parts@,
            final(self).arguments@ == old(self).arguments@,
            final(self).selected_values@ == old(self).selected_values@,
    {
        self.preview_command = Self::build_preview(
            self.command_parts.as_slice(),
            self.arguments.as_slice(),
            self.selected_values.as_slice(),
        );
    }

    /// Moves the cursor one flag down, from the last to the first.
    pub fn next(&mut self)
        ensures
            final(self)@ == old(self)@.next(),
            final(self).command_parts@ == old(self).command_parts@,
            final(self).arguments@ == old(self).arguments@,
            final(self).selected_values@ == old(self).selected_values@,
    {
        if self.arguments.len() == 0 {
            return;
        }
        let i = match self.cursor {
            Some(i) => {
                if i >= self.arguments.len() - 1 {
                    0
                } else {
                    i + 1
                }
            },
            None => 0,
        };
        self.cursor = Some(i);
    }

    /// Moves the cursor one flag up, from the first to the last.
    pub fn previous(&mut self)
        ensures
            final(self)@ == old(self)@.previous(),
            final(self).command_parts@ == old(self).command_parts@,
            final(self).arguments@ == old(self).arguments@,
            final(self).selected_values@ == old(self).selected_values@,
    {
        if self.arguments.len() == 0 {
            return;
        }
        let i = match self.cursor {
            Some(i) => {
                if i == 0 {
                    self.arguments.len() - 1
                } else {
                    i - 1
                }
            },
            None => 0,
        };
        self.cursor = Some(i);
    }

    /// Starts editing the flag under the cursor, from its current value.
    pub fn start_input(&mut self)
        requires
            old(self)@.wf(),
        ensures
            final(self)@ == old(self)@.start_input(),
            final(self).command_parts@ == old(self).command_parts@,
            final(self).arguments@ == old(self).arguments@,
            final(self).selected_values@ == old(self).selected_values@,
    {
        if let Some(selected) = self.cursor {
            self.input_mode = true;
            self.current_input = self.selected_values[selected].clone();
        }
    }

    /// Stores the edit buffer as the value of the flag under the cursor,
    /// renders the preview again and ends the edit.
    pub fn confirm_input(&mut self)
        requires
            old(self)@.wf(),
        ensures
            final(self)@ == old(self)@.confirm_input(),
            final(self)@.wf(),
            final(self).command_parts@ == old(self).command_parts@,
            final(self).arguments@ == old(self).arguments@,
    {
        if let Some(selected) = self.cursor {
            let ghost before = self.selected_values@;
            let value = self.current_input.clone();
            self.selected_values.set(selected, value);
            assert(views(self.selected_values@) =~= views(before).update(selected as int, value@));
            self.update_preview();
        }
        self.input_mode = false;
        self.current_input = String::new();
    }

    /// Ends the edit and drops the buffer; the values stay as they were.
    pub fn cancel_input(&mut self)
        ensures
            final(self)@ == old(self)@.cancel_input(),
            final(self).command_parts@ == old(self).command_parts@,
            final(self).arguments@ == old(self).arguments@,
            final(self).selected_values@ == old(self).selected_values@,
    {
        self.input_mode = false;
        self.current_input = String::new();
    }

    /// Appends a character to the edit buffer.
    pub fn push_input(&mut self, c: char)
        ensures
            final(self)@ == old(self)@.push_input(c),
            final(self).command_parts@ == old(self).command_parts@,
            final(self).arguments@ == old(self).arguments@,
            final(self).selected_values@ == old(self).selected_values@,
    {
        push_char(&mut self.current_input, c);
    }

    /// Removes the last character of the edit buffer, if any.
    pub fn pop_input(&mut self)
        ensures
            final(self)@ == old(self)@.pop_input(),
            final(self).command_parts@ == old(self).command_parts@,
            final(self).arguments@ == old(self).arguments@,
            final(self).selected_values@ == old(self).selected_values@,
    {
        let _ = pop_char(&mut self.current_input);
    }

    /// Applies one key press and says what the driver does next.
    pub fn handle_key(&mut self, key: Key) -> (r: Step)
        requires
            old(self)@.wf(),
        ensures
            (final(self)@, r) == old(self)@.handle_key(key),
            final(self)@.wf(),
    {
        if self.input_mode {
            match key {
                Key::Enter => self.confirm_input(),
                Key::Esc => self.cancel_input(),
                Key::Char { c, control: _ } => self.push_input(c),
                Key::Backspace => self.pop_input(),
                _ => {},
            }
            Step::Continue
        } else {
            match key {
                Key::Char { c, control } => {
                    if c == 'q' {
                        Step::Abort
                    } else if c == 'x' && control {
                        Step::Execute
                    } else {
                        Step::Continue
                    }
                },
                Key::Esc => Step::Abort,
                Key::Down => {
                    self.next();
                    Step::Continue
                },
                Key::Up => {
                    self.previous();
                    Step::Continue
                },
                Key::Enter => {
                    self.start_input();
                    Step::Continue
                },
                _ => Step::Continue,
            }
        }
    }
}

} // verus!
