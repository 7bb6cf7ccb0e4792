//! What a session starts from and hands back: the command that asks for help
//! text, the command run as it stands when the help text names no flag, and the
//! words that the final command line is run as.

use crate::help_parser::Argument;
use crate::text::{is_space, is_space_char, join_with_spaces, join_words, lemma_views_push, string_from, chars_of, views};
use vstd::prelude::*;

verus! {

/// The command line to run without a session: the base command, joined by
/// single spaces, where no flag was found; none where the session is needed.
pub fn bypass_command(command_parts: &Vec<String>, arguments: &Vec<Argument>) -> (r: Option<
    String,
>)
    ensures
        r is Some <==> arguments@.len() == 0,
        r is Some ==> r->0@ == join_words(views(command_parts@)),
{
    if arguments.len() == 0 {
        Some(join_with_spaces(command_parts))
    } else {
        None
    }
}

/// The words of the command that prints help text: the base command followed
/// by `--help`; none where the base command is empty.
pub fn help_invocation(command_parts: &Vec<String>) -> (r: Option<Vec<String>>)
    ensures
        r is Some <==> command_parts@.len() > 0,
        r is Some ==> views(r->0@) == views(command_parts@).push("--help"@),
{
    if command_parts.len() == 0 {
        return None;
    }
    let mut words: Vec<String> = Vec::new();
    let mut k: usize = 0;
    while k < command_parts.len()
        invariant
            k <= command_parts@.len(),
            views(words@) == views(command_parts@).take(k as int),
        decreases command_parts.len() - k,
    {
        let part = command_parts[k].clone();
        proof {
            lemma_views_push(words@, part);
        }
        words.push(part);
        assert(views(words@) =~= views(command_parts@).take(k + 1));
        k += 1;
    }
    assert(views(command_parts@).take(k as int) =~= views(command_parts@));
    let help = String::from_str("--help");
    proof {
        lemma_views_push(words@, help);
    }
    words.push(help);
    Some(words)
}

/// The word of `s[start..i]`, if it is not empty.
pub open spec fn pending_word(s: Seq<char>, start: int, i: int) -> Seq<Seq<char>> {
    if start < i {
        seq![s.subrange(start, i)]
    } else {
        Seq::empty()
    }
}

/// The words of `s` from `start` on, where `s[start..i]` holds no whitespace.
pub open spec fn words_from(s: Seq<char>, start: int, i: int) -> Seq<Seq<char>>
    decreases s.len() - i,
{
    if i < 0 || s.len() < i || start < 0 || i < start {
        Seq::empty()
    } else if i == s.len() {
        pending_word(s, start, i)
    } else if is_space(s[i]) {
        pending_word(s, start, i) + words_from(s, i + 1, i + 1)
    } else {
        words_from(s, start, i + 1)
    }
}

/// The maximal runs of non-whitespace characters of `s`, in order.
pub open spec fn words(s: Seq<char>) -> Seq<Seq<char>> {
    words_from(s, 0, 0)
}

fn push_pending_word(words: &mut Vec<String>, chars: &Vec<char>, start: usize, i: usize)
    requires
        start <= i <= chars@.len(),
    ensures
        views(final(words)@) == views(old(words)@) + pending_word(chars@, start as int, i as int),
{
    let ghost before = words@;
    if start < i {
        let w = string_from(chars, start, i);
        proof {
            lemma_views_push(before, w);
        }
        words.push(w);
        assert(views(words@) =~= views(before) + pending_word(chars@, start as int, i as int));
    } else {
        assert(views(words@) =~= views(before) + pending_word(chars@, start as int, i as int));
    }
}

/// The words that a command line is run as: its maximal runs of
/// non-whitespace characters.
pub fn command_words(command: &str) -> (r: Vec<String>)
    ensures
        views(r@) == words(command@),
{
    let chars = chars_of(command);
    let ghost s = chars@;
    let mut result: Vec<String> = Vec::new();
    let mut start: usize = 0;
    let mut i: usize = 0;
    assert(views(result@) + words_from(s, 0, 0) =~= words(s));
    while i < chars.len()
        invariant
            s == chars@,
            start <= i <= s.len(),
            views(result@) + words_from(s, start as int, i as int) == words(s),
        decreases chars.len() - i,
    {
        let ghost before = views(result@);
        if is_space_char(chars[i]) {
            push_pending_word(&mut result, &chars, start, i);
            assert(views(result@) + words_from(s, i + 1, i + 1) =~= before + words_from(
                s,
                start as int,
                i as int,
            ));
            start = i + 1;
        }
        i += 1;
    }
    let ghost before = views(result@);
    push_pending_word(&mut result, &chars, start, i);
    assert(views(result@) =~= before + words_from(s, start as int, i as int));
    result
}

} // verus!
