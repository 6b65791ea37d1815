//! The sensing master switch, as it binds the compositor.
//!
//! The switch is the user's statement that screen capture is off for everyone.
//! A client asking for pixels is refused while the switch file says so, and a
//! file that states an intent nobody can read any more is read as the
//! protective answer, off.
//!
//! The file is read fresh on every question by the caller; what this module
//! decides is what a given outcome of that read means, and where the file
//! lives given the two environment variables that place it.

use vstd::prelude::*;

use crate::number::{is_blank, is_word, lemma_trim_start_skips_blank};
use crate::text::{
    trim_end, before_first, chars_of, find_char_from, first_index_of, is_white_space, lemma_first_index_bounds, same_chars, trim,
    trim_range, trim_start,
};

verus! {

/// What the file says about one key.
///
/// Three answers rather than a boolean, because "the file does not say" and
/// "the file is not sayable" need opposite treatment.
#[derive(Debug, Clone, Copy, PartialEq, Eq, Structural)]
pub enum Reading {
    /// The key is stated off.
    Off,
    /// The key is stated on.
    On,
    /// The key is not stated, but the file states other settings, so it is
    /// about a different switch and this capability is unconfigured.
    NotStated,
    /// Nothing parses as a setting, or the value is neither `true` nor `false`.
    Unreadable,
}

/// The lines of `text`: the pieces between `'\n'` characters, in order.
///
/// The final piece is kept even when it is empty; an empty piece states
/// nothing, so it never changes a reading. A `'\r'` before a `'\n'` stays in
/// its line, where trimming removes it.
pub open spec fn lines(text: Seq<char>) -> Seq<Seq<char>>
    decreases text.len(),
{
    if text.len() == 0 {
        seq![Seq::<char>::empty()]
    } else {
        let before = lines(text.drop_last());
        if text.last() == '\n' {
            before.push(Seq::<char>::empty())
        } else {
            before.update(before.len() - 1, before.last().push(text.last()))
        }
    }
}

/// The setting a line states, as `(name, value)`: the line is cut at its
/// first `'#'`, trimmed, and split at its first `'='`; both sides are
/// trimmed. A line with no `'='`, or with nothing before it, states nothing.
pub open spec fn setting(line: Seq<char>) -> Option<(Seq<char>, Seq<char>)> {
    let content = trim(before_first(line, '#'));
    let eq = first_index_of(content, '=');
    if eq < content.len() {
        let name = trim(content.take(eq));
        let value = trim(content.skip(eq + 1));
        if name.len() == 0 {
            None
        } else {
            Some((name, value))
        }
    } else {
        None
    }
}

/// Whether `line` states a setting named `key`.
pub open spec fn states_key(line: Seq<char>, key: Seq<char>) -> bool {
    setting(line) matches Some((name, _)) && name == key
}

/// The reading of a stated value: exactly `false` is off, exactly `true` is
/// on, anything else is unreadable.
pub open spec fn value_reading(value: Seq<char>) -> Reading {
    if value == seq!['f', 'a', 'l', 's', 'e'] {
        Reading::Off
    } else if value == seq!['t', 'r', 'u', 'e'] {
        Reading::On
    } else {
        Reading::Unreadable
    }
}

/// `i` is the first line of `ls` that states `key`.
pub open spec fn is_first_statement(ls: Seq<Seq<char>>, key: Seq<char>, i: int) -> bool {
    &&& 0 <= i < ls.len()
    &&& states_key(ls[i], key)
    &&& forall|j: int| 0 <= j < i ==> !states_key(#[trigger] ls[j], key)
}

/// Whether some line of `ls` states `key`.
pub open spec fn key_is_stated(ls: Seq<Seq<char>>, key: Seq<char>) -> bool {
    exists|i: int| 0 <= i < ls.len() && states_key(#[trigger] ls[i], key)
}

/// Whether some line of `ls` states any setting at all.
pub open spec fn any_setting(ls: Seq<Seq<char>>) -> bool {
    exists|i: int| 0 <= i < ls.len() && (#[trigger] setting(ls[i])) is Some
}

/// What `text` says about `key`: the first line that states the key decides
/// by its value; with no such line, a text that states other settings leaves
/// the key unconfigured, and a text that states nothing is unreadable.
pub open spec fn reading_of(text: Seq<char>, key: Seq<char>) -> Reading {
    let ls = lines(text);
    if key_is_stated(ls, key) {
        let i = choose|i: int| is_first_statement(ls, key, i);
        value_reading(setting(ls[i])->Some_0.1)
    } else if any_setting(ls) {
        Reading::NotStated
    } else {
        Reading::Unreadable
    }
}

/// Whether the capture switch is off, given a reading of its key: stated off,
/// or not sayable at all.
pub open spec fn refuses(r: Reading) -> bool {
    r == Reading::Off || r == Reading::Unreadable
}

/// The first line stating the key decides: the choice in [`reading_of`] is
/// the index the caller found first.
proof fn lemma_first_statement_decides(ls: Seq<Seq<char>>, key: Seq<char>, i: int)
    requires
        is_first_statement(ls, key, i),
    ensures
        key_is_stated(ls, key),
        (choose|k: int| is_first_statement(ls, key, k)) == i,
{
    assert(states_key(ls[i], key));
    let k = choose|k: int| is_first_statement(ls, key, k);
    assert(is_first_statement(ls, key, k));
    if k < i {
        assert(!states_key(ls[k], key));
    } else if k > i {
        assert(!states_key(ls[i], key));
    }
}

/// Splitting one more character off the end of a text's prefix.
proof fn lemma_lines_step(text: Seq<char>, n: int)
    requires
        0 <= n < text.len(),
    ensures
        lines(text.take(n + 1)) == (if text[n] == '\n' {
            lines(text.take(n)).push(Seq::<char>::empty())
        } else {
            let before = lines(text.take(n));
            before.update(before.len() - 1, before.last().push(text[n]))
        }),
{
    assert(text.take(n + 1).drop_last() =~= text.take(n));
    assert(text.take(n + 1).last() == text[n]);
}

/// `lines` never yields an empty list.
proof fn lemma_lines_nonempty(text: Seq<char>)
    ensures
        lines(text).len() >= 1,
    decreases text.len(),
{
    if text.len() > 0 {
        lemma_lines_nonempty(text.drop_last());
    }
}

/// The setting `line` states, computed; `None` when it states none.
fn line_setting(line: &Vec<char>) -> (r: Option<(Vec<char>, Vec<char>)>)
    ensures
        match (r, setting(line@)) {
            (Some((n, v)), Some((sn, sv))) => n@ == sn && v@ == sv,
            (None, None) => true,
            _ => false,
        },
{
    let hash = find_char_from(line, 0, '#');
    assert(line@.subrange(0, line@.len() as int) =~= line@);
    let content = trim_range(line, 0, hash);
    assert(line@.subrange(0, hash as int) =~= before_first(line@, '#'));
    let eq = find_char_from(&content, 0, '=');
    assert(content@.subrange(0, content@.len() as int) =~= content@);
    if eq < content.len() {
        let name = trim_range(&content, 0, eq);
        let value = trim_range(&content, eq + 1, content.len());
        assert(content@.subrange(0, eq as int) =~= content@.take(eq as int));
        assert(content@.subrange(eq + 1, content@.len() as int) =~= content@.skip(eq + 1));
        if name.len() == 0 {
            None
        } else {
            Some((name, value))
        }
    } else {
        None
    }
}

/// The reading of a stated value, computed.
fn reading_of_value(value: &Vec<char>) -> (r: Reading)
    ensures
        r == value_reading(value@),
{
    let f = vec!['f', 'a', 'l', 's', 'e'];
    let t = vec!['t', 'r', 'u', 'e'];
    assert(f@ =~= seq!['f', 'a', 'l', 's', 'e']);
    assert(t@ =~= seq!['t', 'r', 'u', 'e']);
    if same_chars(value, &f) {
        Reading::Off
    } else if same_chars(value, &t) {
        Reading::On
    } else {
        Reading::Unreadable
    }
}

/// What `text` says about `key`, line by line: the first line that states the
/// key decides; a text that states only other keys leaves it unconfigured; a
/// text that states nothing at all is unreadable.
pub fn read_key(text: &str, key: &str) -> (r: Reading)
    ensures
        r == reading_of(text@, key@),
{
    let chars = chars_of(text);
    let key_chars = chars_of(key);
    let ghost t = text@;
    let ghost k = key@;
    let mut saw_a_setting = false;
    let mut line: Vec<char> = Vec::new();
    let ghost mut done: Seq<Seq<char>> = Seq::empty();
    let mut i: usize = 0;
    while i < chars.len()
        invariant
            t == text@,
            k == key@,
            chars@ == t,
            key_chars@ == k,
            0 <= i <= chars.len(),
            lines(t.take(i as int)) == done.push(line@),
            forall|j: int| 0 <= j < done.len() ==> !states_key(#[trigger] done[j], k),
            saw_a_setting == exists|j: int|
                0 <= j < done.len() && (#[trigger] setting(done[j])) is Some,
        decreases chars.len() - i,
    {
        proof {
            lemma_lines_step(t, i as int);
        }
        let c = chars[i];
        if c == '\n' {
            let s = line_setting(&line);
            let ghost finished = line@;
            if let Some((name, value)) = s {
                if same_chars(&name, &key_chars) {
                    let r = reading_of_value(&value);
                    proof {
                        let ls = lines(t);
                        let complete = done.push(finished);
                        assert(lines(t.take(i as int + 1)) == complete.push(Seq::<char>::empty()));
                        assert(forall|j: int|
                            0 <= j < complete.len() ==> #[trigger] lines(t.take(i as int + 1))[j]
                                == complete[j]);
                        lemma_lines_prefix_stable(t, i as int + 1, complete);
                        assert(ls[done.len() as int] == finished);
                        assert forall|j: int| 0 <= j < done.len() implies !states_key(
                            #[trigger] ls[j],
                            k,
                        ) by {
                            assert(ls[j] == done[j]);
                        }
                        assert(is_first_statement(ls, k, done.len() as int));
                        lemma_first_statement_decides(ls, k, done.len() as int);
                    }
                    return r;
                }
                saw_a_setting = true;
                proof {
                    assert(setting(done.push(finished)[done.len() as int]) is Some);
                }
            }
            proof {
                let old_done = done;
                done = done.push(finished);
                assert(forall|j: int| 0 <= j < old_done.len() ==> done[j] == old_done[j]);
                if !saw_a_setting {
                    assert forall|j: int| 0 <= j < done.len() implies (#[trigger] setting(
                        done[j],
                    )) is None by {
                        if j < old_done.len() {
                            assert(done[j] == old_done[j]);
                        }
                    }
                }
            }
            line = Vec::new();
            proof {
                assert(lines(t.take(i as int + 1)) =~= done.push(line@));
            }
        } else {
            line.push(c);
            proof {
                assert(lines(t.take(i as int + 1)) =~= done.push(line@));
            }
        }
        i = i + 1;
    }
    assert(t.take(i as int) =~= t);
    let ghost ls = lines(t);
    assert(ls == done.push(line@));
    let s = line_setting(&line);
    let last_states_a_setting = s.is_some();
    if let Some((name, value)) = s {
        if same_chars(&name, &key_chars) {
            let r = reading_of_value(&value);
            proof {
                assert(ls[done.len() as int] == line@);
                assert forall|j: int| 0 <= j < done.len() implies !states_key(#[trigger] ls[j], k) by {
                    assert(ls[j] == done[j]);
                }
                assert(is_first_statement(ls, k, done.len() as int));
                lemma_first_statement_decides(ls, k, done.len() as int);
            }
            return r;
        }
    }
    proof {
        assert forall|j: int| 0 <= j < ls.len() implies !states_key(#[trigger] ls[j], k) by {
            if j < done.len() {
                assert(ls[j] == done[j]);
            } else {
                assert(ls[j] == line@);
            }
        }
        if saw_a_setting {
            let j = choose|j: int| 0 <= j < done.len() && (#[trigger] setting(done[j])) is Some;
            assert(ls[j] == done[j]);
            assert(any_setting(ls));
        }
        if last_states_a_setting {
            assert(ls[done.len() as int] == line@);
            assert(any_setting(ls));
        }
        if !saw_a_setting && !last_states_a_setting {
            assert forall|j: int| 0 <= j < ls.len() implies (#[trigger] setting(ls[j])) is None by {
                if j < done.len() {
                    assert(ls[j] == done[j]);
                } else {
                    assert(ls[j] == line@);
                }
            }
        }
    }
    if saw_a_setting || last_states_a_setting {
        Reading::NotStated
    } else {
        Reading::Unreadable
    }
}

/// Growing the text past a prefix only grows or extends its last line; the
/// complete lines before it stay as they are.
proof fn lemma_lines_prefix_stable(text: Seq<char>, n: int, complete: Seq<Seq<char>>)
    requires
        0 <= n <= text.len(),
        lines(text.take(n)).len() > complete.len(),
        forall|j: int| 0 <= j < complete.len() ==> #[trigger] lines(text.take(n))[j] == complete[j],
    ensures
        lines(text).len() > complete.len(),
        forall|j: int| 0 <= j < complete.len() ==> #[trigger] lines(text)[j] == complete[j],
    decreases text.len() - n,
{
    if n == text.len() {
        assert(text.take(n) =~= text);
    } else {
        lemma_lines_step(text, n);
        let next = lines(text.take(n + 1));
        assert(forall|j: int| 0 <= j < complete.len() ==> #[trigger] next[j] == complete[j]);
        lemma_lines_prefix_stable(text, n + 1, complete);
    }
}

/// How an attempt to read the switch file ended.
pub enum SwitchFileRead {
    /// Neither `XDG_CONFIG_HOME` nor `HOME` places a switch file.
    NoLocation,
    /// The file does not exist.
    NotFound,
    /// The file exists but could not be read as text.
    Failed,
    /// The file's text.
    Text(String),
}

/// Whether screen capture is switched off system-wide, given how the read of
/// the switch file ended.
///
/// A system nobody configured (no location, no file) is a working system; a
/// file that exists but cannot be read states an intent that can no longer be
/// read, and the safe reading of that is the protective one.
pub fn screen_capture_is_off(read: &SwitchFileRead) -> (off: bool)
    ensures
        off == match read {
            SwitchFileRead::NoLocation => false,
            SwitchFileRead::NotFound => false,
            SwitchFileRead::Failed => true,
            SwitchFileRead::Text(text) => refuses(reading_of(text@, "screen_capture"@)),
        },
{
    match read {
        SwitchFileRead::NoLocation => false,
        SwitchFileRead::NotFound => false,
        SwitchFileRead::Failed => true,
        SwitchFileRead::Text(text) => {
            let r = read_key(text.as_str(), "screen_capture");
            match r {
                Reading::Off | Reading::Unreadable => true,
                Reading::On | Reading::NotStated => false,
            }
        },
    }
}

/// The path separator byte, `/`.
pub open spec fn separator() -> u8 {
    47u8
}

/// `rel` appended to `base` the way a path is extended on Unix: a separator
/// goes between them unless `base` is empty or already ends in one.
pub open spec fn joined(base: Seq<u8>, rel: Seq<u8>) -> Seq<u8> {
    if base.len() == 0 || base.last() == separator() {
        base + rel
    } else {
        base.push(separator()) + rel
    }
}

/// A path is absolute when it begins at the root.
pub open spec fn is_absolute(p: Seq<u8>) -> bool {
    p.len() > 0 && p[0] == separator()
}

/// The bytes of `.config`.
pub open spec fn dot_config() -> Seq<u8> {
    seq![46u8, 99u8, 111u8, 110u8, 102u8, 105u8, 103u8]
}

/// The bytes of `arlen/sensing.toml`.
pub open spec fn switch_file_name() -> Seq<u8> {
    seq![
        97u8, 114u8, 108u8, 101u8, 110u8, 47u8, 115u8, 101u8, 110u8, 115u8, 105u8, 110u8, 103u8,
        46u8, 116u8, 111u8, 109u8, 108u8,
    ]
}

/// The configuration directory: `XDG_CONFIG_HOME` when it is set and
/// absolute, else `$HOME/.config`, else none.
pub open spec fn config_dir(xdg_config_home: Option<Seq<u8>>, home: Option<Seq<u8>>) -> Option<
    Seq<u8>,
> {
    match xdg_config_home {
        Some(x) if is_absolute(x) => Some(x),
        _ => match home {
            Some(h) => Some(joined(h, dot_config())),
            None => None,
        },
    }
}

/// The switch file: `arlen/sensing.toml` in the configuration directory.
pub open spec fn switch_path(xdg_config_home: Option<Seq<u8>>, home: Option<Seq<u8>>) -> Option<
    Seq<u8>,
> {
    match config_dir(xdg_config_home, home) {
        Some(dir) => Some(joined(dir, switch_file_name())),
        None => None,
    }
}

/// The view of an optional byte string.
pub open spec fn bytes_opt(b: Option<&[u8]>) -> Option<Seq<u8>> {
    match b {
        Some(s) => Some(s@),
        None => None,
    }
}

/// `v` with the bytes of `s` appended.
fn append_bytes(v: &mut Vec<u8>, s: &[u8])
    ensures
        final(v)@ == old(v)@ + s@,
{
    let mut i: usize = 0;
    while i < s.len()
        invariant
            0 <= i <= s.len(),
            v@ == old(v)@ + s@.take(i as int),
        decreases s.len() - i,
    {
        v.push(s[i]);
        i = i + 1;
        assert(v@ =~= old(v)@ + s@.take(i as int));
    }
    assert(s@.take(s.len() as int) =~= s@);
}

/// `rel` appended to `base` as a path component.
fn join_bytes(base: &[u8], rel: &[u8]) -> (p: Vec<u8>)
    ensures
        p@ == joined(base@, rel@),
{
    let mut p: Vec<u8> = Vec::new();
    append_bytes(&mut p, base);
    assert(p@ =~= base@);
    if base.len() > 0 && base[base.len() - 1] != 47u8 {
        p.push(47u8);
    }
    append_bytes(&mut p, rel);
    p
}

/// Where the switch file lives, given the values of `XDG_CONFIG_HOME` and
/// `HOME` as raw bytes: `$XDG_CONFIG_HOME/arlen/sensing.toml` when that
/// variable is absolute, else `$HOME/.config/arlen/sensing.toml`, else none.
pub fn switch_file(xdg_config_home: Option<&[u8]>, home: Option<&[u8]>) -> (path: Option<Vec<u8>>)
    ensures
        match (path, switch_path(bytes_opt(xdg_config_home), bytes_opt(home))) {
            (Some(p), Some(q)) => p@ == q,
            (None, None) => true,
            _ => false,
        },
{
    let config = vec![46u8, 99u8, 111u8, 110u8, 102u8, 105u8, 103u8];
    let name = vec![
        97u8, 114u8, 108u8, 101u8, 110u8, 47u8, 115u8, 101u8, 110u8, 115u8, 105u8, 110u8, 103u8,
        46u8, 116u8, 111u8, 109u8, 108u8,
    ];
    assert(config@ =~= dot_config());
    assert(name@ =~= switch_file_name());
    let dir: Vec<u8> = match xdg_config_home {
        Some(x) if x.len() > 0 && x[0] == 47u8 => {
            let mut d: Vec<u8> = Vec::new();
            append_bytes(&mut d, x);
            assert(d@ =~= x@);
            d
        },
        _ => match home {
            Some(h) => join_bytes(h, config.as_slice()),
            None => {
                return None;
            },
        },
    };
    Some(join_bytes(dir.as_slice(), name.as_slice()))
}

/// The first `c` of `a + b` is in `b` when `a` holds none.
proof fn lemma_first_index_past(a: Seq<char>, b: Seq<char>, c: char)
    requires
        !a.contains(c),
    ensures
        first_index_of(a + b, c) == a.len() + first_index_of(b, c),
    decreases a.len(),
{
    if a.len() > 0 {
        assert((a + b).drop_first() =~= a.drop_first() + b);
        assert(!a.drop_first().contains(c)) by {
            if a.drop_first().contains(c) {
                let j = choose|j: int| 0 <= j < a.drop_first().len() && a.drop_first()[j] == c;
                assert(a[j + 1] == c);
            }
        }
        assert(a[0] != c);
        lemma_first_index_past(a.drop_first(), b, c);
    } else {
        assert(a + b =~= b);
    }
}

/// Law: a trailing comment does not hide the setting: a line holding no
/// `#`, followed by `#` and any comment, states exactly what the line states.
pub proof fn law_trailing_comment_does_not_hide_the_setting(line: Seq<char>, comment: Seq<char>)
    requires
        !line.contains('#'),
    ensures
        setting(line + seq!['#'] + comment) == setting(line),
{
    let full = line + seq!['#'] + comment;
    assert(full =~= line + (seq!['#'] + comment));
    lemma_first_index_past(line, seq!['#'] + comment, '#');
    assert(first_index_of(seq!['#'] + comment, '#') == 0);
    lemma_first_index_past(line, Seq::<char>::empty(), '#');
    assert(line + Seq::<char>::empty() =~= line);
    assert(full.take(line.len() as int) =~= line);
    assert(line.take(line.len() as int) =~= line);
}

/// Text made only of whitespace trims to nothing.
proof fn lemma_blank_trims_to_nothing(s: Seq<char>)
    requires
        forall|i: int| 0 <= i < s.len() ==> is_white_space(#[trigger] s[i]),
    ensures
        trim_start(s).len() == 0,
    decreases s.len(),
{
    if s.len() > 0 {
        assert(forall|i: int|
            0 <= i < s.drop_first().len() ==> #[trigger] s.drop_first()[i] == s[i + 1]);
        lemma_blank_trims_to_nothing(s.drop_first());
    }
}

/// When the first non-blank character of `s` is `#`, everything before the
/// first `#` is blank.
proof fn lemma_blank_before_comment(s: Seq<char>)
    requires
        trim_start(s).len() > 0,
        trim_start(s)[0] == '#',
    ensures
        forall|i: int| 0 <= i < first_index_of(s, '#') ==> is_white_space(#[trigger] s[i]),
        first_index_of(s, '#') <= s.len(),
    decreases s.len(),
{
    if is_white_space(s[0]) {
        lemma_blank_before_comment(s.drop_first());
        assert(s[0] != '#');
        assert forall|i: int| 0 <= i < first_index_of(s, '#') implies is_white_space(
            #[trigger] s[i],
        ) by {
            if i > 0 {
                assert(s[i] == s.drop_first()[i - 1]);
            }
        }
    }
}

/// Law: a commented-out line states nothing, whatever follows its `#`.
pub proof fn law_commented_line_states_nothing(line: Seq<char>)
    requires
        trim_start(line).len() > 0,
        trim_start(line)[0] == '#',
    ensures
        setting(line) is None,
{
    lemma_blank_before_comment(line);
    lemma_first_index_bounds(line, '#');
    let before = before_first(line, '#');
    assert forall|i: int| 0 <= i < before.len() implies is_white_space(#[trigger] before[i]) by {
        assert(before[i] == line[i]);
    }
    lemma_blank_trims_to_nothing(before);
    assert(trim(before).len() == 0);
}

/// Law: the switch refuses capture exactly when its key reads off or
/// unreadable; a key stated on, or a file about other switches only, leaves
/// capture allowed.
pub proof fn law_switch_refuses_off_and_unreadable(text: Seq<char>, key: Seq<char>)
    ensures
        refuses(reading_of(text, key)) <==> (reading_of(text, key) == Reading::Off
            || reading_of(text, key) == Reading::Unreadable),
        reading_of(text, key) == Reading::On ==> !refuses(reading_of(text, key)),
        reading_of(text, key) == Reading::NotStated ==> !refuses(reading_of(text, key)),
{
}

/// The lines of two texts joined by a newline are the lines of the first
/// followed by the lines of the second.
proof fn lemma_lines_join(a: Seq<char>, b: Seq<char>)
    ensures
        lines(a + seq!['\n'] + b) == lines(a) + lines(b),
    decreases b.len(),
{
    let t = a + seq!['\n'] + b;
    if b.len() == 0 {
        assert(t.drop_last() =~= a);
        assert(lines(a).push(Seq::<char>::empty()) =~= lines(a) + lines(b));
    } else {
        let b0 = b.drop_last();
        assert(t.drop_last() =~= a + seq!['\n'] + b0);
        assert(t.last() == b.last());
        lemma_lines_join(a, b0);
        lemma_lines_nonempty(b0);
        let x = lines(a);
        let y = lines(b0);
        if b.last() == '\n' {
            assert((x + y).push(Seq::<char>::empty()) =~= x + y.push(Seq::<char>::empty()));
        } else {
            let c = b.last();
            assert((x + y).update((x + y).len() - 1, (x + y).last().push(c)) =~= x + y.update(
                y.len() - 1,
                y.last().push(c),
            ));
        }
    }
}

/// Law: once a text states the key, nothing after it can change the reading:
/// whatever lines follow, the first statement of the key decides.
pub proof fn law_first_statement_decides(text: Seq<char>, more: Seq<char>, key: Seq<char>)
    requires
        key_is_stated(lines(text), key),
    ensures
        reading_of(text + seq!['\n'] + more, key) == reading_of(text, key),
{
    let ls = lines(text);
    let all = lines(text + seq!['\n'] + more);
    lemma_lines_join(text, more);
    let i = choose|i: int| is_first_statement(ls, key, i);
    let w = choose|w: int| 0 <= w < ls.len() && states_key(#[trigger] ls[w], key);
    lemma_first_statement_exists(ls, key, w);
    lemma_first_statement_decides(ls, key, i);
    assert(all[i] == ls[i]);
    assert forall|j: int| 0 <= j < i implies !states_key(#[trigger] all[j], key) by {
        assert(all[j] == ls[j]);
    }
    assert(is_first_statement(all, key, i));
    lemma_first_statement_decides(all, key, i);
}

/// When some line states the key, a first such line exists.
proof fn lemma_first_statement_exists(ls: Seq<Seq<char>>, key: Seq<char>, w: int)
    requires
        0 <= w < ls.len(),
        states_key(ls[w], key),
    ensures
        exists|i: int| is_first_statement(ls, key, i),
    decreases w,
{
    if exists|j: int| 0 <= j < w && states_key(#[trigger] ls[j], key) {
        let j = choose|j: int| 0 <= j < w && states_key(#[trigger] ls[j], key);
        lemma_first_statement_exists(ls, key, j);
    } else {
        assert(is_first_statement(ls, key, w));
    }
}

/// Law: where the sensing switch file lives. An absolute `XDG_CONFIG_HOME`
/// `x` gives `x/arlen/sensing.toml`; otherwise (unset, or set to a relative
/// path, which is ignored alike) a `HOME` of `h` gives
/// `h/.config/arlen/sensing.toml`, with no separator doubled after a
/// trailing `/`; with neither there is no file.
pub proof fn law_switch_file_location(home: Option<Seq<u8>>, xdg: Seq<u8>)
    ensures
        ({
            let slash: Seq<u8> = seq![47u8];
            let tail: Seq<u8> = seq![
                97u8, 114u8, 108u8, 101u8, 110u8, 47u8, 115u8, 101u8, 110u8, 115u8, 105u8,
                110u8, 103u8, 46u8, 116u8, 111u8, 109u8, 108u8,
            ];
            let config: Seq<u8> = seq![46u8, 99u8, 111u8, 110u8, 102u8, 105u8, 103u8];
            &&& !(xdg.len() > 0 && xdg[0] == 47u8) ==> switch_path(Some(xdg), home) == switch_path(
                None,
                home,
            )
            &&& xdg.len() > 0 && xdg[0] == 47u8 && xdg.last() != 47u8 ==> switch_path(
                Some(xdg),
                home,
            ) == Some(xdg + slash + tail)
            &&& xdg.len() > 0 && xdg[0] == 47u8 && xdg.last() == 47u8 ==> switch_path(
                Some(xdg),
                home,
            ) == Some(xdg + tail)
            &&& home matches Some(h) ==> (h.len() > 0 && h.last() != 47u8 ==> switch_path(
                None,
                home,
            ) == Some(h + slash + config + slash + tail))
            &&& home matches Some(h) ==> (h.len() > 0 && h.last() == 47u8 ==> switch_path(
                None,
                home,
            ) == Some(h + config + slash + tail))
            &&& home is None ==> switch_path(None, home) is None
        }),
{
    let slash: Seq<u8> = seq![47u8];
    let tail: Seq<u8> = seq![
        97u8, 114u8, 108u8, 101u8, 110u8, 47u8, 115u8, 101u8, 110u8, 115u8, 105u8, 110u8, 103u8,
        46u8, 116u8, 111u8, 109u8, 108u8,
    ];
    let config: Seq<u8> = seq![46u8, 99u8, 111u8, 110u8, 102u8, 105u8, 103u8];
    assert(tail =~= switch_file_name());
    assert(config =~= dot_config());
    if xdg.len() > 0 && xdg[0] == 47u8 {
        if xdg.last() != 47u8 {
            assert(xdg.push(47u8) + tail =~= xdg + slash + tail);
        }
    }
    if let Some(h) = home {
        if h.len() > 0 {
            let dir = joined(h, config);
            assert(dir.len() > 0 && dir.last() == 103u8);
            if h.last() != 47u8 {
                assert(dir =~= h + slash + config);
                assert(dir.push(47u8) + tail =~= h + slash + config + slash + tail);
            } else {
                assert(dir =~= h + config);
                assert(dir.push(47u8) + tail =~= h + config + slash + tail);
            }
        }
    }
}

/// A text with no newline is a single line.
proof fn lemma_one_line(t: Seq<char>)
    requires
        !t.contains('\n'),
    ensures
        lines(t) == seq![t],
    decreases t.len(),
{
    if t.len() > 0 {
        assert(!t.drop_last().contains('\n')) by {
            if t.drop_last().contains('\n') {
                let j = choose|j: int| 0 <= j < t.drop_last().len() && t.drop_last()[j] == '\n';
                assert(t[j] == '\n');
            }
        }
        lemma_one_line(t.drop_last());
        assert(t.last() != '\n') by {
            assert(t[t.len() - 1] == t.last());
        }
        assert(t.drop_last().push(t.last()) =~= t);
    } else {
        assert(t =~= Seq::<char>::empty());
    }
}

/// The first `c` in `p + [c] + q`, where `p` holds none, is at `p.len()`.
proof fn lemma_first_index_after(p: Seq<char>, c: char, q: Seq<char>)
    requires
        !p.contains(c),
    ensures
        first_index_of(p + seq![c] + q, c) == p.len(),
    decreases p.len(),
{
    let t = p + seq![c] + q;
    if p.len() > 0 {
        assert(t[0] == p[0]);
        assert(p[0] != c);
        assert(t.drop_first() =~= p.drop_first() + seq![c] + q);
        assert(!p.drop_first().contains(c)) by {
            if p.drop_first().contains(c) {
                let j = choose|j: int| 0 <= j < p.drop_first().len() && p.drop_first()[j] == c;
                assert(p[j + 1] == c);
            }
        }
        lemma_first_index_after(p.drop_first(), c, q);
    } else {
        assert(t[0] == c);
    }
}

/// A text holding no `c` has its first `c` at its end.
proof fn lemma_first_index_absent(t: Seq<char>, c: char)
    requires
        !t.contains(c),
    ensures
        first_index_of(t, c) == t.len(),
    decreases t.len(),
{
    if t.len() > 0 {
        assert(t[0] != c);
        assert(!t.drop_first().contains(c)) by {
            if t.drop_first().contains(c) {
                let j = choose|j: int| 0 <= j < t.drop_first().len() && t.drop_first()[j] == c;
                assert(t[j + 1] == c);
            }
        }
        lemma_first_index_absent(t.drop_first(), c);
    }
}

/// A text that starts and ends with non-whitespace trims to itself.
proof fn lemma_trim_keeps(t: Seq<char>)
    requires
        t.len() > 0,
        !is_white_space(t[0]),
        !is_white_space(t.last()),
    ensures
        trim(t) == t,
{
}

/// Law: one `key=value` line. A text that is one line naming a key and a
/// value (each a word, the key holding no `=` and neither holding `#`)
/// reads off exactly for the value `false`, on exactly for `true`, and
/// unreadable for any other value; every other key is not stated there
/// (the file is about another switch). An empty text is unreadable.
pub proof fn law_one_setting_line(key: Seq<char>, value: Seq<char>, other: Seq<char>)
    requires
        is_word(key),
        is_word(value),
        !key.contains('='),
        !key.contains('#'),
        !value.contains('#'),
    ensures
        reading_of(key + seq!['='] + value, key) == (if value == seq!['f', 'a', 'l', 's', 'e'] {
            Reading::Off
        } else if value == seq!['t', 'r', 'u', 'e'] {
            Reading::On
        } else {
            Reading::Unreadable
        }),
        other != key ==> reading_of(key + seq!['='] + value, other) == Reading::NotStated,
        reading_of(Seq::<char>::empty(), key) == Reading::Unreadable,
{
    let t = key + seq!['='] + value;
    assert(is_white_space('\n'));
    assert(!t.contains('\n')) by {
        if t.contains('\n') {
            let j = choose|j: int| 0 <= j < t.len() && t[j] == '\n';
            if j < key.len() {
                assert(key[j] == '\n');
            } else if j > key.len() {
                assert(value[j - key.len() - 1] == '\n');
            }
        }
    }
    assert(!t.contains('#')) by {
        if t.contains('#') {
            let j = choose|j: int| 0 <= j < t.len() && t[j] == '#';
            if j < key.len() {
                assert(key.contains('#'));
            } else if j > key.len() {
                assert(value[j - key.len() - 1] == '#');
                assert(value.contains('#'));
            }
        }
    }
    lemma_one_line(t);
    lemma_first_index_absent(t, '#');
    assert(before_first(t, '#') =~= t);
    assert(t[0] == key[0]);
    assert(t.last() == value.last()) by {
        assert(value.last() == value[value.len() - 1]);
    }
    assert(!is_white_space(value.last())) by {
        assert(value.last() == value[value.len() - 1]);
    }
    lemma_trim_keeps(t);
    lemma_first_index_after(key, '=', value);
    assert(t.take(key.len() as int) =~= key);
    assert(t.skip(key.len() as int + 1) =~= value);
    assert(!is_white_space(key.last())) by {
        assert(key.last() == key[key.len() - 1]);
    }
    lemma_trim_keeps(key);
    lemma_trim_keeps(value);
    assert(setting(t) == Some((key, value)));
    let ls = lines(t);
    assert(ls.len() == 1 && ls[0] == t);
    assert(states_key(ls[0], key));
    assert(is_first_statement(ls, key, 0));
    let i = choose|i: int| is_first_statement(ls, key, i);
    assert(i == 0);
    if other != key {
        assert(!key_is_stated(ls, other)) by {
            if key_is_stated(ls, other) {
                let j = choose|j: int| 0 <= j < ls.len() && states_key(#[trigger] ls[j], other);
                assert(j == 0);
            }
        }
        assert(setting(ls[0]) is Some);
    }
    let e = Seq::<char>::empty();
    lemma_one_line(e);
    assert(trim(before_first(e, '#')).len() == 0);
    assert(setting(e) is None);
    assert(!key_is_stated(lines(e), key)) by {
        if key_is_stated(lines(e), key) {
            let j = choose|j: int| 0 <= j < lines(e).len() && states_key(#[trigger] lines(e)[j], key);
            assert(j == 0);
        }
    }
    assert(!any_setting(lines(e))) by {
        if any_setting(lines(e)) {
            let j = choose|j: int| 0 <= j < lines(e).len() && (#[trigger] setting(lines(e)[j])) is Some;
            assert(j == 0);
        }
    }
}

/// Trailing whitespace is dropped.
proof fn lemma_trim_end_skips_blank(s: Seq<char>, pad: Seq<char>)
    requires
        is_blank(pad),
    ensures
        trim_end(s + pad) == trim_end(s),
    decreases pad.len(),
{
    if pad.len() > 0 {
        assert((s + pad).last() == pad.last());
        assert(is_white_space(pad[pad.len() - 1]));
        assert((s + pad).drop_last() =~= s + pad.drop_last());
        lemma_trim_end_skips_blank(s, pad.drop_last());
    } else {
        assert(s + pad =~= s);
    }
}

/// `s` trims to itself when it starts and ends with non-whitespace, with
/// any whitespace around it.
proof fn lemma_trim_padded(pad1: Seq<char>, s: Seq<char>, pad2: Seq<char>)
    requires
        is_blank(pad1),
        is_blank(pad2),
        s.len() > 0,
        !is_white_space(s[0]),
        !is_white_space(s.last()),
    ensures
        trim(pad1 + s + pad2) == s,
{
    assert(pad1 + s + pad2 =~= pad1 + (s + pad2));
    lemma_trim_start_skips_blank(pad1, s + pad2);
    assert((s + pad2)[0] == s[0]);
    assert(trim_start(s + pad2) == s + pad2);
    lemma_trim_end_skips_blank(s, pad2);
}

/// A blank text holds neither `=` nor `#`.
proof fn lemma_blank_holds_no(pad: Seq<char>, c: char)
    requires
        is_blank(pad),
        !is_white_space(c),
    ensures
        !pad.contains(c),
{
    if pad.contains(c) {
        let j = choose|j: int| 0 <= j < pad.len() && pad[j] == c;
        assert(is_white_space(pad[j]));
    }
}

/// Law: spacing around a setting does not matter. Whitespace before the
/// name, around the `=` and after the value is ignored: such a line states
/// the name and the value themselves (a name being a word with no `=`, and
/// neither holding `#`).
pub proof fn law_setting_ignores_spacing(
    pad1: Seq<char>,
    key: Seq<char>,
    pad2: Seq<char>,
    pad3: Seq<char>,
    value: Seq<char>,
    pad4: Seq<char>,
)
    requires
        is_blank(pad1),
        is_blank(pad2),
        is_blank(pad3),
        is_blank(pad4),
        is_word(key),
        is_word(value),
        !key.contains('='),
        !key.contains('#'),
        !value.contains('#'),
    ensures
        setting(pad1 + key + pad2 + seq!['='] + pad3 + value + pad4) == Some((key, value)),
{
    let inner = key + pad2 + seq!['='] + pad3 + value;
    let t = pad1 + key + pad2 + seq!['='] + pad3 + value + pad4;
    assert(t =~= pad1 + inner + pad4);
    assert(!is_white_space('#'));
    assert(!is_white_space('='));
    lemma_blank_holds_no(pad1, '#');
    lemma_blank_holds_no(pad2, '#');
    lemma_blank_holds_no(pad3, '#');
    lemma_blank_holds_no(pad4, '#');
    lemma_blank_holds_no(pad2, '=');
    assert(!t.contains('#')) by {
        if t.contains('#') {
            let j = choose|j: int| 0 <= j < t.len() && t[j] == '#';
            let a = pad1.len() as int;
            let b = a + key.len();
            let c = b + pad2.len();
            let d = c + 1;
            let e = d + pad3.len();
            let f = e + value.len();
            if j < a {
                assert(pad1[j] == '#');
            } else if j < b {
                assert(key[j - a] == '#');
            } else if j < c {
                assert(pad2[j - b] == '#');
            } else if j < d {
            } else if j < e {
                assert(pad3[j - d] == '#');
            } else if j < f {
                assert(value[j - e] == '#');
            } else {
                assert(pad4[j - f] == '#');
            }
        }
    }
    lemma_first_index_absent(t, '#');
    assert(before_first(t, '#') =~= t);
    assert(inner[0] == key[0]);
    assert(inner.last() == value.last()) by {
        assert(value.last() == value[value.len() - 1]);
    }
    assert(!is_white_space(value.last())) by {
        assert(value.last() == value[value.len() - 1]);
    }
    lemma_trim_padded(pad1, inner, pad4);
    assert(!(key + pad2).contains('=')) by {
        if (key + pad2).contains('=') {
            let j = choose|j: int| 0 <= j < (key + pad2).len() && (key + pad2)[j] == '=';
            if j < key.len() {
                assert(key[j] == '=');
            } else {
                assert(pad2[j - key.len()] == '=');
            }
        }
    }
    assert(inner =~= (key + pad2) + seq!['='] + (pad3 + value));
    lemma_first_index_after(key + pad2, '=', pad3 + value);
    let k = (key + pad2).len() as int;
    assert(inner.take(k) =~= key + pad2);
    assert(inner.skip(k + 1) =~= pad3 + value);
    let e = Seq::<char>::empty();
    assert(is_blank(e));
    assert(!is_white_space(key.last())) by {
        assert(key.last() == key[key.len() - 1]);
    }
    lemma_trim_padded(e, key, pad2);
    assert(e + key + pad2 =~= key + pad2);
    lemma_trim_padded(pad3, value, e);
    assert(pad3 + value + e =~= pad3 + value);
}

} // verus!
