//! Choosing how much is logged.

use crate::order;
use crate::text;
use std::str::FromStr;
use vstd::prelude::*;

verus! {

/// Kernel command-line token that selects the maximum log level, e.g.
/// `oak_log_level=debug`. The host sets it, so that verbosity is configurable per
/// run without rebuilding the guest.
pub const CMDLINE_LOG_LEVEL_KEY: &'static str = "oak_log_level=";

/// Fallback environment variable, for when the command-line token is absent.
pub const LOG_LEVEL_ENV: &'static str = "OAK_LOG_LEVEL";

/// How much is logged.
#[derive(Debug, Clone, Copy, PartialEq, Eq, Structural)]
pub enum LogLevel {
    Off,
    Error,
    Warn,
    Info,
    Debug,
    Trace,
}

// ---------------------------------------------------------------------------
// Words
// ---------------------------------------------------------------------------

/// Whether a character is whitespace.
pub open spec fn whitespace(c: char) -> bool {
    let n = c as u32;
    ||| 0x09 <= n <= 0x0d
    ||| n == 0x20
    ||| n == 0x85
    ||| n == 0xa0
    ||| n == 0x1680
    ||| 0x2000 <= n <= 0x200a
    ||| n == 0x2028
    ||| n == 0x2029
    ||| n == 0x202f
    ||| n == 0x205f
    ||| n == 0x3000
}

fn is_whitespace(c: char) -> (r: bool)
    ensures
        r == whitespace(c),
{
    let n: u32 = c as u32;
    (0x09 <= n && n <= 0x0d) || n == 0x20 || n == 0x85 || n == 0xa0 || n == 0x1680 || (0x2000 <= n
        && n <= 0x200a) || n == 0x2028 || n == 0x2029 || n == 0x202f || n == 0x205f || n == 0x3000
}

/// The words of a text that end before its end.
pub open spec fn ended_words(s: Seq<char>) -> Seq<Seq<char>>
    decreases s.len(),
{
    if s.len() == 0 {
        Seq::empty()
    } else if whitespace(s.last()) && open_word(s.drop_last()).len() > 0 {
        ended_words(s.drop_last()).push(open_word(s.drop_last()))
    } else {
        ended_words(s.drop_last())
    }
}

/// The characters at the end of a text that are not whitespace.
pub open spec fn open_word(s: Seq<char>) -> Seq<char>
    decreases s.len(),
{
    if s.len() == 0 || whitespace(s.last()) {
        Seq::empty()
    } else {
        open_word(s.drop_last()).push(s.last())
    }
}

/// The words of a text: its longest runs of characters that are not whitespace.
pub open spec fn words(s: Seq<char>) -> Seq<Seq<char>> {
    if open_word(s).len() > 0 {
        ended_words(s).push(open_word(s))
    } else {
        ended_words(s)
    }
}

/// Splits a text into its words.
pub fn split_words(s: &str) -> (r: Vec<String>)
    ensures
        order::views(r@) == words(s@),
{
    let chars = text::chars_of(s);
    let mut r: Vec<String> = Vec::new();
    let mut start: usize = 0;
    let mut i: usize = 0;
    proof {
        assert(order::views(r@) =~= Seq::empty());
        assert(s@.take(0) =~= Seq::empty());
        assert(s@.subrange(0, 0) =~= Seq::empty());
    }
    while i < chars.len()
        invariant
            start <= i <= chars@.len(),
            chars@ == s@,
            order::views(r@) == ended_words(s@.take(i as int)),
            open_word(s@.take(i as int)) == s@.subrange(start as int, i as int),
        decreases chars@.len() - i,
    {
        proof {
            assert(s@.take(i + 1).drop_last() =~= s@.take(i as int));
            assert(s@.take(i + 1).last() == s@[i as int]);
        }
        if is_whitespace(chars[i]) {
            if start < i {
                let word = s.substring_char(start, i).to_string();
                assert(order::views(r@.push(word)) =~= order::views(r@).push(word@));
                r.push(word);
            }
            start = i + 1;
            assert(s@.subrange(i + 1, i + 1) =~= Seq::empty());
        } else {
            assert(s@.subrange(start as int, i + 1) =~= s@.subrange(start as int, i as int).push(
                s@[i as int],
            ));
        }
        i = i + 1;
    }
    assert(s@.take(s@.len() as int) =~= s@);
    if start < chars.len() {
        let word = s.substring_char(start, chars.len()).to_string();
        assert(order::views(r@.push(word)) =~= order::views(r@).push(word@));
        r.push(word);
    }
    r
}

/// A text without the whitespace at its ends.
pub open spec fn trimmed(s: Seq<char>) -> Seq<char>
    decreases s.len(),
{
    if s.len() > 0 && whitespace(s.first()) {
        trimmed(s.drop_first())
    } else if s.len() > 0 && whitespace(s.last()) {
        trimmed(s.drop_last())
    } else {
        s
    }
}

/// Takes off the whitespace at the ends of a text.
pub fn trim(s: &str) -> (r: String)
    ensures
        r@ == trimmed(s@),
{
    let chars = text::chars_of(s);
    let mut start: usize = 0;
    let mut end: usize = chars.len();
    assert(s@.subrange(0, s@.len() as int) =~= s@);
    while start < end && is_whitespace(chars[start])
        invariant
            start <= end <= chars@.len(),
            chars@ == s@,
            trimmed(s@) == trimmed(s@.subrange(start as int, end as int)),
        decreases end - start,
    {
        assert(s@.subrange(start as int, end as int).drop_first() =~= s@.subrange(
            start + 1,
            end as int,
        ));
        start = start + 1;
    }
    while start < end && is_whitespace(chars[end - 1])
        invariant
            start <= end <= chars@.len(),
            chars@ == s@,
            start < end ==> !whitespace(s@[start as int]),
            trimmed(s@) == trimmed(s@.subrange(start as int, end as int)),
        decreases end - start,
    {
        assert(s@.subrange(start as int, end as int).drop_last() =~= s@.subrange(
            start as int,
            end - 1,
        ));
        end = end - 1;
    }
    s.substring_char(start, end).to_string()
}

// ---------------------------------------------------------------------------
// Levels
// ---------------------------------------------------------------------------

/// A character in lower case, as far as ASCII goes.
pub open spec fn lowered(c: char) -> char {
    if 'A' <= c <= 'Z' {
        (c as u32 + 32) as char
    } else {
        c
    }
}

/// Whether two words are the same but for the case of ASCII letters.
pub open spec fn same_word(a: Seq<char>, b: Seq<char>) -> bool {
    a.len() == b.len() && forall|i: int|
        0 <= i < a.len() ==> lowered(#[trigger] a[i]) == lowered(b[i])
}

/// The level of that name.
pub open spec fn level_named(name: Seq<char>) -> Option<LogLevel> {
    if same_word("off"@, name) {
        Some(LogLevel::Off)
    } else if same_word("error"@, name) {
        Some(LogLevel::Error)
    } else if same_word("warn"@, name) {
        Some(LogLevel::Warn)
    } else if same_word("info"@, name) {
        Some(LogLevel::Info)
    } else if same_word("debug"@, name) {
        Some(LogLevel::Debug)
    } else if same_word("trace"@, name) {
        Some(LogLevel::Trace)
    } else {
        None
    }
}

/// Calls `log::LevelFilter::from_str`. Claimed: it knows the six level names, in
/// upper or lower case, and nothing else.
#[verifier::external_body]
fn parse_level(name: &str) -> (level: Option<LogLevel>)
    ensures
        level == level_named(name@),
{
    match log::LevelFilter::from_str(name) {
        Ok(log::LevelFilter::Off) => Some(LogLevel::Off),
        Ok(log::LevelFilter::Error) => Some(LogLevel::Error),
        Ok(log::LevelFilter::Warn) => Some(LogLevel::Warn),
        Ok(log::LevelFilter::Info) => Some(LogLevel::Info),
        Ok(log::LevelFilter::Debug) => Some(LogLevel::Debug),
        Ok(log::LevelFilter::Trace) => Some(LogLevel::Trace),
        Err(_) => None,
    }
}

/// What the first word with the key sets the level to.
pub open spec fn first_setting(words: Seq<Seq<char>>) -> Option<Seq<char>>
    decreases words.len(),
{
    if words.len() == 0 {
        None
    } else if CMDLINE_LOG_LEVEL_KEY@.is_prefix_of(words[0]) {
        Some(words[0].skip(CMDLINE_LOG_LEVEL_KEY@.len() as int))
    } else {
        first_setting(words.drop_first())
    }
}

/// The level that a kernel command line selects. Only the first setting counts,
/// even where it names no level.
pub open spec fn cmdline_level(cmdline: Seq<char>) -> Option<LogLevel> {
    match first_setting(words(cmdline)) {
        Some(name) => level_named(name),
        None => None,
    }
}

/// Reads `oak_log_level=<level>` from the kernel command line.
pub fn level_from_cmdline(cmdline: &str) -> (level: Option<LogLevel>)
    ensures
        level == cmdline_level(cmdline@),
{
    let list = split_words(cmdline);
    let ghost all = words(cmdline@);
    let key = text::chars_of(CMDLINE_LOG_LEVEL_KEY);
    let mut i: usize = 0;
    assert(all.skip(0) =~= all);
    while i < list.len()
        invariant
            i <= list@.len(),
            all == words(cmdline@),
            order::views(list@) == all,
            key@ == CMDLINE_LOG_LEVEL_KEY@,
            first_setting(all) == first_setting(all.skip(i as int)),
        decreases list@.len() - i,
    {
        let word = list[i].as_str();
        let chars = text::chars_of(word);
        proof {
            assert(all[i as int] == list@[i as int]@);
            assert(all.skip(i as int)[0] == word@);
            assert(all.skip(i as int).drop_first() =~= all.skip(i + 1));
        }
        if text::starts_with(chars.as_slice(), CMDLINE_LOG_LEVEL_KEY) {
            let name = word.substring_char(key.len(), chars.len());
            assert(name@ =~= word@.skip(key@.len() as int));
            return parse_level(name);
        }
        i = i + 1;
    }
    None
}

/// The level that the environment variable selects.
pub open spec fn env_level(value: Option<Seq<char>>) -> Option<LogLevel> {
    match value {
        Some(value) => level_named(trimmed(value)),
        None => None,
    }
}

/// The level that is logged at: the command line goes before the environment
/// variable, and that before the default.
pub open spec fn chosen_level(
    cmdline: Option<Seq<char>>,
    env: Option<Seq<char>>,
) -> LogLevel {
    match (
        match cmdline {
            Some(cmdline) => cmdline_level(cmdline),
            None => None,
        },
        env_level(env),
    ) {
        (Some(level), _) => level,
        (None, Some(level)) => level,
        (None, None) => LogLevel::Debug,
    }
}

/// Chooses the level that is logged at, from the kernel command line and the
/// environment variable, as far as they can be read.
pub fn choose_level(cmdline: Option<&str>, env: Option<&str>) -> (level: LogLevel)
    ensures
        level == chosen_level(
            match cmdline {
                Some(s) => Some(s@),
                None => None,
            },
            match env {
                Some(s) => Some(s@),
                None => None,
            },
        ),
{
    if let Some(cmdline) = cmdline {
        if let Some(level) = level_from_cmdline(cmdline) {
            return level;
        }
    }
    if let Some(value) = env {
        let name = trim(value);
        if let Some(level) = parse_level(name.as_str()) {
            return level;
        }
    }
    LogLevel::Debug
}

// ---------------------------------------------------------------------------
// Laws
// ---------------------------------------------------------------------------

/// A level that the command line selects goes before whatever the environment
/// says; without one, the environment decides.
pub proof fn law_cmdline_goes_before_environment(cmdline: Seq<char>, env: Option<Seq<char>>)
    ensures
        cmdline_level(cmdline) matches Some(level) ==> chosen_level(Some(cmdline), env) == level,
        cmdline_level(cmdline) is None ==> chosen_level(Some(cmdline), env) == chosen_level(
            None,
            env,
        ),
{
}

proof fn lemma_open_word_run(a: Seq<char>, w: Seq<char>)
    requires
        forall|i: int| 0 <= i < w.len() ==> !whitespace(#[trigger] w[i]),
    ensures
        open_word(a + w) == open_word(a) + w,
        ended_words(a + w) == ended_words(a),
    decreases w.len(),
{
    if w.len() == 0 {
        assert(a + w =~= a);
        assert(open_word(a) + w =~= open_word(a));
    } else {
        let init = w.drop_last();
        assert((a + w).drop_last() =~= a + init);
        assert((a + w).last() == w.last());
        assert(!whitespace(w[w.len() - 1]));
        lemma_open_word_run(a, init);
        assert(open_word(a + w) =~= open_word(a) + w);
    }
}

/// A text is split at its whitespace: the words on both sides of a whitespace character
/// are those of the text before it and then those of the text behind it.
pub proof fn law_whitespace_parts_words(a: Seq<char>, c: char, b: Seq<char>)
    requires
        whitespace(c),
    ensures
        words(a.push(c) + b) == words(a) + words(b),
    decreases b.len(),
{
    lemma_words_behind(a, c, b);
    if open_word(b).len() > 0 {
        assert(words(a.push(c) + b) =~= words(a) + words(b));
    } else {
        assert(words(a.push(c) + b) =~= words(a) + words(b));
    }
}

proof fn lemma_words_behind(a: Seq<char>, c: char, b: Seq<char>)
    requires
        whitespace(c),
    ensures
        open_word(a.push(c) + b) == open_word(b),
        ended_words(a.push(c) + b) == words(a) + ended_words(b),
    decreases b.len(),
{
    let all = a.push(c) + b;
    if b.len() == 0 {
        assert(all =~= a.push(c));
        assert(all.drop_last() =~= a);
        assert(all.last() == c);
        assert(ended_words(all) =~= words(a) + ended_words(b));
    } else {
        assert(all.drop_last() =~= a.push(c) + b.drop_last());
        assert(all.last() == b.last());
        lemma_words_behind(a, c, b.drop_last());
        assert(ended_words(all) =~= words(a) + ended_words(b));
    }
}

/// A text without whitespace is one word, unless it is empty.
pub proof fn law_text_without_whitespace_is_one_word(w: Seq<char>)
    requires
        forall|i: int| 0 <= i < w.len() ==> !whitespace(#[trigger] w[i]),
    ensures
        w.len() > 0 ==> words(w) == seq![w],
        w.len() == 0 ==> words(w).len() == 0,
{
    let none = Seq::<char>::empty();
    lemma_open_word_run(none, w);
    assert(none + w =~= w);
    assert(open_word(none) + w =~= w);
    if w.len() > 0 {
        assert(words(w) =~= seq![w]);
    }
}

/// A text with whitespace round it is trimmed to the text, where that starts and ends
/// with something else.
pub proof fn law_trimming_takes_whitespace_off(a: Seq<char>, core: Seq<char>, b: Seq<char>)
    requires
        forall|i: int| 0 <= i < a.len() ==> whitespace(#[trigger] a[i]),
        forall|i: int| 0 <= i < b.len() ==> whitespace(#[trigger] b[i]),
        core.len() > 0,
        !whitespace(core.first()),
        !whitespace(core.last()),
    ensures
        trimmed(a + core + b) == core,
    decreases a.len() + b.len(),
{
    let all = a + core + b;
    if a.len() > 0 {
        assert(all.first() == a[0]);
        assert(all.drop_first() =~= a.drop_first() + core + b);
        assert forall|i: int| 0 <= i < a.drop_first().len() implies whitespace(
            #[trigger] a.drop_first()[i],
        ) by {
            assert(a.drop_first()[i] == a[i + 1]);
        }
        law_trimming_takes_whitespace_off(a.drop_first(), core, b);
    } else if b.len() > 0 {
        assert(all.first() == core.first());
        assert(all.last() == b[b.len() - 1]);
        assert(all.drop_last() =~= a + core + b.drop_last());
        assert forall|i: int| 0 <= i < b.drop_last().len() implies whitespace(
            #[trigger] b.drop_last()[i],
        ) by {
            assert(b.drop_last()[i] == b[i]);
        }
        law_trimming_takes_whitespace_off(a, core, b.drop_last());
    } else {
        assert(all =~= core);
    }
}

proof fn lemma_first_setting(list: Seq<Seq<char>>, k: int)
    requires
        0 <= k <= list.len(),
        forall|j: int| 0 <= j < k ==> !"oak_log_level="@.is_prefix_of(#[trigger] list[j]),
        k < list.len() ==> "oak_log_level="@.is_prefix_of(list[k]),
    ensures
        first_setting(list) == (if k < list.len() {
            Some(list[k].skip("oak_log_level="@.len() as int))
        } else {
            None
        }),
    decreases list.len(),
{
    if k > 0 {
        assert(!"oak_log_level="@.is_prefix_of(list[0]));
        let rest = list.drop_first();
        assert forall|j: int| 0 <= j < k - 1 implies !"oak_log_level="@.is_prefix_of(
            #[trigger] rest[j],
        ) by {
            assert(rest[j] == list[j + 1]);
        }
        lemma_first_setting(rest, k - 1);
    }
}

/// The command line sets the level by its first word that starts with `oak_log_level=`:
/// what follows there names the level, whatever the words behind it say. Without such a
/// word, and with a name that is no level, nothing is set. Here `k` is the place of that
/// word, or the number of words.
pub proof fn law_first_setting_of_the_cmdline_counts(cmdline: Seq<char>, k: int, name: Seq<char>)
    requires
        0 <= k <= words(cmdline).len(),
        forall|j: int|
            0 <= j < k ==> !"oak_log_level="@.is_prefix_of(#[trigger] words(cmdline)[j]),
        k < words(cmdline).len() ==> words(cmdline)[k] == "oak_log_level="@ + name,
    ensures
        k < words(cmdline).len() ==> cmdline_level(cmdline) == level_named(name),
        k == words(cmdline).len() ==> cmdline_level(cmdline) is None,
{
    let key = "oak_log_level="@;
    let list = words(cmdline);
    if k < list.len() {
        assert((key + name).subrange(0, key.len() as int) =~= key);
        assert((key + name).skip(key.len() as int) =~= name);
    }
    lemma_first_setting(list, k);
}

/// What is not set by the command line is set by the environment, whose value may have
/// whitespace round it; what neither sets is `debug`.
pub proof fn law_environment_and_default(
    cmdline: Option<Seq<char>>,
    a: Seq<char>,
    name: Seq<char>,
    b: Seq<char>,
)
    requires
        cmdline matches Some(text) ==> cmdline_level(text) is None,
        forall|i: int| 0 <= i < a.len() ==> whitespace(#[trigger] a[i]),
        forall|i: int| 0 <= i < b.len() ==> whitespace(#[trigger] b[i]),
        name.len() > 0,
        !whitespace(name.first()),
        !whitespace(name.last()),
    ensures
        chosen_level(cmdline, None) == LogLevel::Debug,
        level_named(name) matches Some(level) ==> chosen_level(cmdline, Some(a + name + b)) == level,
        level_named(name) is None ==> chosen_level(cmdline, Some(a + name + b)) == LogLevel::Debug,
{
    law_trimming_takes_whitespace_off(a, name, b);
}

/// The environment variable and the key on the command line that set the level.
pub proof fn law_names_of_the_settings()
    ensures
        LOG_LEVEL_ENV@ == "OAK_LOG_LEVEL"@,
        CMDLINE_LOG_LEVEL_KEY@ == "oak_log_level="@,
{
}

} // verus!
