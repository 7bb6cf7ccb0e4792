//! Reading flag descriptions out of a program's help text.
//!
//! Each line is read on its own. A line describes a flag when it holds, in
//! order: optional leading whitespace; a flag, either `-` and one ASCII letter
//! or `--` and one or more word characters or hyphens; optionally separators
//! (whitespace or commas) and a second flag of the same shape; optionally
//! whitespace and a value placeholder, `<...>` (required) or `[...]`
//! (optional), with at least one character between the brackets; then
//! whitespace and a description that holds at least one non-whitespace
//! character. Where a line can be read in more than one way, a second flag is
//! preferred to none, and a placeholder to none, in that order.

use crate::text::{is_space, is_space_char, string_from, chars_of};
use vstd::prelude::*;

verus! {

/// One flag read from help text.
#[derive(Debug, Clone)]
pub struct Argument {
    pub name: String,
    pub description: String,
    pub required: bool,
    pub takes_value: bool,
}

/// What an [`Argument`] holds, as plain values.
pub struct ArgumentView {
    pub name: Seq<char>,
    pub description: Seq<char>,
    pub required: bool,
    pub takes_value: bool,
}

impl View for Argument {
    type V = ArgumentView;

    open spec fn view(&self) -> ArgumentView {
        ArgumentView {
            name: self.name@,
            description: self.description@,
            required: self.required,
            takes_value: self.takes_value,
        }
    }
}

/// What holds of every flag read from help text: a name that starts with `-`,
/// a description with no whitespace at either end, and a value placeholder
/// wherever a required one was read.
pub open spec fn is_well_formed(a: ArgumentView) -> bool {
    &&& a.required ==> a.takes_value
    &&& a.name.len() >= 2
    &&& a.name[0] == '-'
    &&& a.description.len() > 0
    &&& !is_space(a.description[0])
    &&& !is_space(a.description.last())
}

/// The views of a sequence of arguments.
pub open spec fn argument_views(v: Seq<Argument>) -> Seq<ArgumentView> {
    v.map_values(|a: Argument| a@)
}

pub open spec fn is_ascii_letter(c: char) -> bool {
    ('a' <= c && c <= 'z') || ('A' <= c && c <= 'Z')
}

/// A character of a long flag's name: ASCII letter, digit, underscore or hyphen.
pub open spec fn is_flag_char(c: char) -> bool {
    is_ascii_letter(c) || ('0' <= c && c <= '9') || c == '_' || c == '-'
}

/// A separator between two flags: whitespace or a comma.
pub open spec fn is_separator(c: char) -> bool {
    is_space(c) || c == ','
}

/// The first index at or after `i` that does not hold whitespace.
pub open spec fn skip_space(s: Seq<char>, i: int) -> int
    decreases s.len() - i,
{
    if 0 <= i < s.len() && is_space(s[i]) {
        skip_space(s, i + 1)
    } else {
        i
    }
}

/// The first index at or after `i` that does not hold a separator.
pub open spec fn skip_separators(s: Seq<char>, i: int) -> int
    decreases s.len() - i,
{
    if 0 <= i < s.len() && is_separator(s[i]) {
        skip_separators(s, i + 1)
    } else {
        i
    }
}

/// The first index at or after `i` that does not hold a flag character.
pub open spec fn skip_flag_chars(s: Seq<char>, i: int) -> int
    decreases s.len() - i,
{
    if 0 <= i < s.len() && is_flag_char(s[i]) {
        skip_flag_chars(s, i + 1)
    } else {
        i
    }
}

/// The first index at or after `i` that holds `c`, or the length if none does.
pub open spec fn find_char(s: Seq<char>, i: int, c: char) -> int
    decreases s.len() - i,
{
    if 0 <= i < s.len() && s[i] != c {
        find_char(s, i + 1, c)
    } else {
        i
    }
}

/// The end of `s[..e]` once trailing whitespace is removed.
pub open spec fn trim_end(s: Seq<char>, e: int) -> int
    decreases e,
{
    if 0 < e <= s.len() && is_space(s[e - 1]) {
        trim_end(s, e - 1)
    } else {
        e
    }
}

/// Where a flag that starts at `i` ends, or -1 where none starts there.
pub open spec fn flag_end(s: Seq<char>, i: int) -> int {
    if 0 <= i && i + 1 < s.len() && s[i] == '-' && is_ascii_letter(s[i + 1]) {
        i + 2
    } else if 0 <= i && i + 2 < s.len() && s[i] == '-' && s[i + 1] == '-' && is_flag_char(
        s[i + 2],
    ) {
        skip_flag_chars(s, i + 2)
    } else {
        -1
    }
}

/// Where the closing bracket of a placeholder opened at `k` stands, if the
/// placeholder is well formed.
pub open spec fn closing_bracket(s: Seq<char>, k: int) -> int {
    let close = if s[k] == '<' {
        '>'
    } else {
        ']'
    };
    find_char(s, k + 1, close)
}

/// Where a placeholder that follows whitespace at `j` ends, or -1 where none does.
pub open spec fn placeholder_end(s: Seq<char>, j: int) -> int {
    let k = skip_space(s, j);
    if 0 <= j < s.len() && is_space(s[j]) && k < s.len() && (s[k] == '<' || s[k] == '[') {
        let m = closing_bracket(s, k);
        if k + 1 < m < s.len() {
            m + 1
        } else {
            -1
        }
    } else {
        -1
    }
}

/// Whitespace at `j`, followed later on by a non-whitespace character.
pub open spec fn description_at(s: Seq<char>, j: int) -> bool {
    0 <= j < s.len() && is_space(s[j]) && skip_space(s, j) < s.len()
}

/// What follows a flag that ends at `j`: where the description's whitespace
/// starts, whether a placeholder stands before it, and whether that one is
/// `<...>`.
pub struct Tail {
    pub start: int,
    pub takes_value: bool,
    pub required: bool,
}

pub open spec fn tail_after(s: Seq<char>, j: int) -> Option<Tail> {
    let p = placeholder_end(s, j);
    if p >= 0 && description_at(s, p) {
        Some(Tail { start: p, takes_value: true, required: s[skip_space(s, j)] == '<' })
    } else if description_at(s, j) {
        Some(Tail { start: j, takes_value: false, required: false })
    } else {
        None
    }
}

pub open spec fn make_argument(s: Seq<char>, lo: int, hi: int, t: Tail) -> ArgumentView {
    ArgumentView {
        name: s.subrange(lo, hi),
        description: s.subrange(skip_space(s, t.start), trim_end(s, s.len() as int)),
        required: t.required,
        takes_value: t.takes_value,
    }
}

/// The flag that one line of help text describes, if any.
pub open spec fn parse_line(s: Seq<char>) -> Option<ArgumentView> {
    let a = skip_space(s, 0);
    let e1 = flag_end(s, a);
    let b = skip_separators(s, e1);
    let e2 = if e1 >= 0 && b > e1 {
        flag_end(s, b)
    } else {
        -1
    };
    if e1 < 0 {
        None
    } else if e2 >= 0 && tail_after(s, e2) is Some {
        Some(make_argument(s, b, e2, tail_after(s, e2)->0))
    } else if tail_after(s, e1) is Some {
        Some(make_argument(s, a, e1, tail_after(s, e1)->0))
    } else {
        None
    }
}

pub open spec fn line_arguments(s: Seq<char>) -> Seq<ArgumentView> {
    match parse_line(s) {
        Some(a) => seq![a],
        None => Seq::empty(),
    }
}

/// The flags of the lines of `s` from the one that starts at `start`, where
/// `s[start..i]` holds no line break.
pub open spec fn arguments_from(s: Seq<char>, start: int, i: int) -> Seq<ArgumentView>
    decreases s.len() - i,
{
    if i < 0 || s.len() < i || start < 0 || i < start {
        Seq::empty()
    } else if i == s.len() {
        line_arguments(s.subrange(start, i))
    } else if s[i] == '\n' {
        line_arguments(s.subrange(start, i)) + arguments_from(s, i + 1, i + 1)
    } else {
        arguments_from(s, start, i + 1)
    }
}

/// The flags that help text describes, one for each line that describes one,
/// in the order of the lines.
pub open spec fn help_arguments(s: Seq<char>) -> Seq<ArgumentView> {
    arguments_from(s, 0, 0)
}

proof fn lemma_trim_end_keeps(s: Seq<char>, e: int, k: int)
    requires
        0 <= k < e <= s.len(),
        !is_space(s[k]),
    ensures
        k < trim_end(s, e) <= e,
    decreases e,
{
    if is_space(s[e - 1]) {
        lemma_trim_end_keeps(s, e - 1, k);
    }
}

fn skip_space_from(s: &Vec<char>, i: usize) -> (r: usize)
    requires
        i <= s@.len(),
    ensures
        r as int == skip_space(s@, i as int),
        i <= r <= s@.len(),
        r < s@.len() ==> !is_space(s@[r as int]),
{
    let mut j: usize = i;
    while j < s.len() && is_space_char(s[j])
        invariant
            i <= j <= s@.len(),
            skip_space(s@, i as int) == skip_space(s@, j as int),
        decreases s.len() - j,
    {
        j += 1;
    }
    j
}

fn skip_separators_from(s: &Vec<char>, i: usize) -> (r: usize)
    requires
        i <= s@.len(),
    ensures
        r as int == skip_separators(s@, i as int),
        i <= r <= s@.len(),
{
    let mut j: usize = i;
    while j < s.len() && (is_space_char(s[j]) || s[j] == ',')
        invariant
            i <= j <= s@.len(),
            skip_separators(s@, i as int) == skip_separators(s@, j as int),
        decreases s.len() - j,
    {
        j += 1;
    }
    j
}

fn is_ascii_letter_char(c: char) -> (r: bool)
    ensures
        r == is_ascii_letter(c),
{
    ('a' <= c && c <= 'z') || ('A' <= c && c <= 'Z')
}

fn is_flag_char_char(c: char) -> (r: bool)
    ensures
        r == is_flag_char(c),
{
    is_ascii_letter_char(c) || ('0' <= c && c <= '9') || c == '_' || c == '-'
}

fn skip_flag_chars_from(s: &Vec<char>, i: usize) -> (r: usize)
    requires
        i <= s@.len(),
    ensures
        r as int == skip_flag_chars(s@, i as int),
        i <= r <= s@.len(),
{
    let mut j: usize = i;
    while j < s.len() && is_flag_char_char(s[j])
        invariant
            i <= j <= s@.len(),
            skip_flag_chars(s@, i as int) == skip_flag_chars(s@, j as int),
        decreases s.len() - j,
    {
        j += 1;
    }
    j
}

fn find_char_from(s: &Vec<char>, i: usize, c: char) -> (r: usize)
    requires
        i <= s@.len(),
    ensures
        r as int == find_char(s@, i as int, c),
        i <= r <= s@.len(),
{
    let mut j: usize = i;
    while j < s.len() && s[j] != c
        invariant
            i <= j <= s@.len(),
            find_char(s@, i as int, c) == find_char(s@, j as int, c),
        decreases s.len() - j,
    {
        j += 1;
    }
    j
}

fn trim_end_from(s: &Vec<char>, e: usize) -> (r: usize)
    requires
        e <= s@.len(),
    ensures
        r as int == trim_end(s@, e as int),
        r <= e,
        r > 0 ==> !is_space(s@[r - 1]),
{
    let mut j: usize = e;
    while j > 0 && is_space_char(s[j - 1])
        invariant
            j <= e <= s@.len(),
            trim_end(s@, e as int) == trim_end(s@, j as int),
        decreases j,
    {
        j -= 1;
    }
    j
}

fn flag_end_at(s: &Vec<char>, i: usize) -> (r: Option<usize>)
    requires
        i <= s@.len(),
    ensures
        match r {
            Some(e) => e as int == flag_end(s@, i as int) && i + 2 <= e <= s@.len() && s@[i as int]
                == '-',
            None => flag_end(s@, i as int) == -1,
        },
{
    if i < s.len() && s.len() - i > 1 && s[i] == '-' && is_ascii_letter_char(s[i + 1]) {
        Some(i + 2)
    } else if i < s.len() && s.len() - i > 2 && s[i] == '-' && s[i + 1] == '-' && is_flag_char_char(s[i + 2]) {
        Some(skip_flag_chars_from(s, i + 2))
    } else {
        None
    }
}

fn placeholder_end_at(s: &Vec<char>, j: usize) -> (r: Option<usize>)
    requires
        j <= s@.len(),
    ensures
        match r {
            Some(p) => p as int == placeholder_end(s@, j as int) && j < p <= s@.len(),
            None => placeholder_end(s@, j as int) == -1,
        },
{
    if j < s.len() && is_space_char(s[j]) {
        let k = skip_space_from(s, j);
        if k < s.len() && (s[k] == '<' || s[k] == '[') {
            let close = if s[k] == '<' {
                '>'
            } else {
                ']'
            };
            let m = find_char_from(s, k + 1, close);
            if k + 1 < m && m < s.len() {
                return Some(m + 1);
            }
        }
    }
    None
}

fn description_at_exec(s: &Vec<char>, j: usize) -> (r: bool)
    requires
        j <= s@.len(),
    ensures
        r == description_at(s@, j as int),
{
    j < s.len() && is_space_char(s[j]) && skip_space_from(s, j) < s.len()
}

/// What follows a flag that ends at `j`: the description's start, whether a
/// placeholder was read, and whether it was `<...>`.
fn tail_at(s: &Vec<char>, j: usize) -> (r: Option<(usize, bool, bool)>)
    requires
        j <= s@.len(),
    ensures
        match r {
            Some((start, tv, req)) => tail_after(s@, j as int) == Some(
                Tail { start: start as int, takes_value: tv, required: req },
            ) && start < s@.len() && (req ==> tv),
            None => tail_after(s@, j as int) is None,
        },
{
    if let Some(p) = placeholder_end_at(s, j) {
        if description_at_exec(s, p) {
            let k = skip_space_from(s, j);
            return Some((p, true, s[k] == '<'));
        }
    }
    if description_at_exec(s, j) {
        Some((j, false, false))
    } else {
        None
    }
}

fn build_argument(s: &Vec<char>, lo: usize, hi: usize, start: usize, tv: bool, req: bool) -> (r:
    Argument)
    requires
        lo + 2 <= hi <= s@.len(),
        s@[lo as int] == '-',
        description_at(s@, start as int),
        req ==> tv,
    ensures
        is_well_formed(r@),
        r@ == make_argument(
            s@,
            lo as int,
            hi as int,
            Tail { start: start as int, takes_value: tv, required: req },
        ),
{
    let d_lo = skip_space_from(s, start);
    let d_hi = trim_end_from(s, s.len());
    proof {
        lemma_trim_end_keeps(s@, s@.len() as int, d_lo as int);
    }
    Argument {
        name: string_from(s, lo, hi),
        description: string_from(s, d_lo, d_hi),
        required: req,
        takes_value: tv,
    }
}

pub open spec fn argument_option_view(r: Option<Argument>) -> Option<ArgumentView> {
    match r {
        Some(a) => Some(a@),
        None => None,
    }
}

/// The flag that one line of help text describes, if any.
pub fn parse_line_chars(s: &Vec<char>) -> (r: Option<Argument>)
    ensures
        argument_option_view(r) == parse_line(s@),
        r is Some ==> is_well_formed(r->0@),
{
    let a = skip_space_from(s, 0);
    let e1 = match flag_end_at(s, a) {
        Some(e) => e,
        None => {
            return None;
        },
    };
    let b = skip_separators_from(s, e1);
    if b > e1 {
        if let Some(e2) = flag_end_at(s, b) {
            if let Some((start, tv, req)) = tail_at(s, e2) {
                return Some(build_argument(s, b, e2, start, tv, req));
            }
        }
    }
    match tail_at(s, e1) {
        Some((start, tv, req)) => Some(build_argument(s, a, e1, start, tv, req)),
        None => None,
    }
}

fn push_line_argument(arguments: &mut Vec<Argument>, line: &Vec<char>)
    ensures
        argument_views(final(arguments)@) == argument_views(old(arguments)@) + line_arguments(
            line@,
        ),
        (forall|k: int| 0 <= k < old(arguments)@.len() ==> is_well_formed(old(arguments)@[k]@))
            ==> (forall|k: int|
            0 <= k < final(arguments)@.len() ==> is_well_formed(final(arguments)@[k]@)),
{
    let ghost before = arguments@;
    if let Some(a) = parse_line_chars(line) {
        arguments.push(a);
        assert(argument_views(arguments@) =~= argument_views(before) + seq![a@]);
    } else {
        assert(argument_views(arguments@) =~= argument_views(before) + Seq::<ArgumentView>::empty());
    }
}

/// The flags that `help_text` describes, in the order of its lines; lines
/// that describe none are passed over.
pub fn parse_help_output(help_text: &str) -> (r: Vec<Argument>)
    ensures
        argument_views(r@) == help_arguments(help_text@),
        forall|k: int| 0 <= k < r@.len() ==> is_well_formed(#[trigger] r@[k]@),
{
    let chars = chars_of(help_text);
    let ghost s = chars@;
    let mut arguments: Vec<Argument> = Vec::new();
    let mut line: Vec<char> = Vec::new();
    let mut start: usize = 0;
    let mut i: usize = 0;
    assert(argument_views(arguments@) + arguments_from(s, 0, 0) =~= help_arguments(s));
    while i < chars.len()
        invariant
            s == chars@,
            start <= i <= s.len(),
            line@ == s.subrange(start as int, i as int),
            argument_views(arguments@) + arguments_from(s, start as int, i as int)
                == help_arguments(s),
            forall|k: int| 0 <= k < arguments@.len() ==> is_well_formed(#[trigger] arguments@[k]@),
        decreases chars.len() - i,
    {
        let ghost views_before = argument_views(arguments@);
        if chars[i] == '\n' {
            push_line_argument(&mut arguments, &line);
            assert(argument_views(arguments@) + arguments_from(s, i + 1, i + 1) =~= views_before
                + arguments_from(s, start as int, i as int));
            line = Vec::new();
            start = i + 1;
            assert(line@ =~= s.subrange(start as int, i + 1));
        } else {
            line.push(chars[i]);
            assert(line@ =~= s.subrange(start as int, i + 1));
        }
        i += 1;
    }
    let ghost views_before = argument_views(arguments@);
    push_line_argument(&mut arguments, &line);
    assert(argument_views(arguments@) =~= views_before + arguments_from(
        s,
        start as int,
        i as int,
    ));
    arguments
}

} // verus!
