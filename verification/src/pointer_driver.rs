//! The command language and registry choices of the pointer driver, a
//! `zwlr_virtual_pointer_v1` client that stays alive so a nested compositor
//! under test always has a pointer to bind.
//!
//! Commands, one per line:
//!   move <x> <y>     absolute position, in the output's pixels
//!   press|release    left button
//!   click            press, brief pause, release
//!   sleep <ms>
//!   quit             (also an empty line)
//! A missing coordinate reads as `0`, a missing duration as `100`.

use vstd::prelude::*;
use vstd::string::*;

use crate::number::{
    is_blank, is_word, law_next_word, next_word, next_word_at, parse_decimal, parse_unsigned,
    scan_digits, NumberError,
};
use crate::text::{chars_of, copy_range, is_white_space, min_version, same_chars, str_eq};

verus! {

/// One driver command.
#[derive(Debug, PartialEq, Eq)]
pub enum Command {
    /// Move to an absolute position.
    Move { x: u32, y: u32 },
    /// Press the left button.
    Press,
    /// Release the left button.
    Release,
    /// Press, pause, release.
    Click,
    /// Wait this many milliseconds.
    Sleep { ms: u64 },
    /// Stop reading commands.
    Quit,
    /// A command word the driver does not know.
    Unknown { word: String },
}

/// The abstract value of a [`Command`].
pub enum CommandView {
    Move { x: u32, y: u32 },
    Press,
    Release,
    Click,
    Sleep { ms: u64 },
    Quit,
    Unknown { word: Seq<char> },
}

impl View for Command {
    type V = CommandView;

    open spec fn view(&self) -> CommandView {
        match self {
            Command::Move { x, y } => CommandView::Move { x: *x, y: *y },
            Command::Press => CommandView::Press,
            Command::Release => CommandView::Release,
            Command::Click => CommandView::Click,
            Command::Sleep { ms } => CommandView::Sleep { ms: *ms },
            Command::Quit => CommandView::Quit,
            Command::Unknown { word } => CommandView::Unknown { word: word@ },
        }
    }
}

/// The next argument word of `rest` and the text after it; `default` (and
/// `rest` unchanged) when no word is left.
pub open spec fn arg_or(rest: Seq<char>, default: Seq<char>) -> (Seq<char>, Seq<char>) {
    match next_word(rest) {
        Some((w, after)) => (w, after),
        None => (default, rest),
    }
}

/// The command a line means. The first word names it; extra words are
/// ignored; a number that does not parse is an error.
pub open spec fn command_of(line: Seq<char>) -> Result<CommandView, NumberError> {
    match next_word(line) {
        None => Ok(CommandView::Quit),
        Some((w, rest)) => if w == seq!['m', 'o', 'v', 'e'] {
            let (a, after_a) = arg_or(rest, seq!['0']);
            let (b, _) = arg_or(after_a, seq!['0']);
            match parse_unsigned(a, u32::MAX as int) {
                Err(e) => Err(e),
                Ok(x) => match parse_unsigned(b, u32::MAX as int) {
                    Err(e) => Err(e),
                    Ok(y) => Ok(CommandView::Move { x: x as u32, y: y as u32 }),
                },
            }
        } else if w == seq!['p', 'r', 'e', 's', 's'] {
            Ok(CommandView::Press)
        } else if w == seq!['r', 'e', 'l', 'e', 'a', 's', 'e'] {
            Ok(CommandView::Release)
        } else if w == seq!['c', 'l', 'i', 'c', 'k'] {
            Ok(CommandView::Click)
        } else if w == seq!['s', 'l', 'e', 'e', 'p'] {
            let (a, _) = arg_or(rest, seq!['1', '0', '0']);
            match parse_unsigned(a, u64::MAX as int) {
                Err(e) => Err(e),
                Ok(ms) => Ok(CommandView::Sleep { ms: ms as u64 }),
            }
        } else if w == seq!['q', 'u', 'i', 't'] {
            Ok(CommandView::Quit)
        } else {
            Ok(CommandView::Unknown { word: w })
        },
    }
}

/// The next argument of `chars[from..]` as characters, or `default` when no
/// word is left; also where the rest of the line starts.
fn arg_at(chars: &Vec<char>, from: usize, default: &Vec<char>) -> (r: (Vec<char>, usize))
    requires
        from <= chars.len(),
    ensures
        r.1 <= chars.len(),
        (r.0@, chars@.skip(r.1 as int)) == arg_or(chars@.skip(from as int), default@),
{
    match next_word_at(chars, from) {
        Some((a, b)) => (copy_range(chars, a, b), b),
        None => (copy_range(default, 0, default.len()), from),
    }
}

/// Parse one command line.
pub fn parse_command(line: &str) -> (r: Result<Command, NumberError>)
    ensures
        match (r, command_of(line@)) {
            (Ok(c), Ok(v)) => c@ == v,
            (Err(e), Err(f)) => e == f,
            _ => false,
        },
{
    let chars = chars_of(line);
    assert(chars@.skip(0) =~= chars@);
    let (a, b) = match next_word_at(&chars, 0) {
        Some(range) => range,
        None => {
            return Ok(Command::Quit);
        },
    };
    let word = copy_range(&chars, a, b);
    let zero = vec!['0'];
    let hundred = vec!['1', '0', '0'];
    let move_word = vec!['m', 'o', 'v', 'e'];
    let press_word = vec!['p', 'r', 'e', 's', 's'];
    let release_word = vec!['r', 'e', 'l', 'e', 'a', 's', 'e'];
    let click_word = vec!['c', 'l', 'i', 'c', 'k'];
    let sleep_word = vec!['s', 'l', 'e', 'e', 'p'];
    let quit_word = vec!['q', 'u', 'i', 't'];
    assert(zero@ =~= seq!['0']);
    assert(hundred@ =~= seq!['1', '0', '0']);
    assert(move_word@ =~= seq!['m', 'o', 'v', 'e']);
    assert(press_word@ =~= seq!['p', 'r', 'e', 's', 's']);
    assert(release_word@ =~= seq!['r', 'e', 'l', 'e', 'a', 's', 'e']);
    assert(click_word@ =~= seq!['c', 'l', 'i', 'c', 'k']);
    assert(sleep_word@ =~= seq!['s', 'l', 'e', 'e', 'p']);
    assert(quit_word@ =~= seq!['q', 'u', 'i', 't']);
    if same_chars(&word, &move_word) {
        let (xs, after_x) = arg_at(&chars, b, &zero);
        let (ys, _) = arg_at(&chars, after_x, &zero);
        let x = match parse_decimal(&xs, 0xFFFF_FFFF) {
            Ok(v) => v,
            Err(e) => {
                return Err(e);
            },
        };
        let y = match parse_decimal(&ys, 0xFFFF_FFFF) {
            Ok(v) => v,
            Err(e) => {
                return Err(e);
            },
        };
        Ok(Command::Move { x: x as u32, y: y as u32 })
    } else if same_chars(&word, &press_word) {
        Ok(Command::Press)
    } else if same_chars(&word, &release_word) {
        Ok(Command::Release)
    } else if same_chars(&word, &click_word) {
        Ok(Command::Click)
    } else if same_chars(&word, &sleep_word) {
        let (ms, _) = arg_at(&chars, b, &hundred);
        match parse_decimal(&ms, 0xFFFF_FFFF_FFFF_FFFF) {
            Ok(v) => Ok(Command::Sleep { ms: v }),
            Err(e) => Err(e),
        }
    } else if same_chars(&word, &quit_word) {
        Ok(Command::Quit)
    } else {
        let text = line.substring_char(a, b).to_owned();
        Ok(Command::Unknown { word: text })
    }
}

/// A global the pointer driver binds.
#[derive(Debug, Clone, Copy, PartialEq, Eq, Structural)]
pub enum PointerGlobal {
    /// `zwlr_virtual_pointer_manager_v1`.
    VirtualPointerManager,
    /// The first `wl_seat`.
    Seat,
    /// The first `wl_output`.
    Output,
}

/// Which registry global the pointer driver binds, and at which version: the
/// virtual pointer manager (up to version 2), the first seat (up to 5) and
/// the first output (up to 3); nothing else.
pub open spec fn pointer_binding(interface: Seq<char>, version: u32, seat_bound: bool, output_bound: bool) -> Option<(PointerGlobal, u32)> {
    if interface == "zwlr_virtual_pointer_manager_v1"@ {
        Some((PointerGlobal::VirtualPointerManager, min_version(version, 2)))
    } else if interface == "wl_seat"@ && !seat_bound {
        Some((PointerGlobal::Seat, min_version(version, 5)))
    } else if interface == "wl_output"@ && !output_bound {
        Some((PointerGlobal::Output, min_version(version, 3)))
    } else {
        None
    }
}

/// Decide a registry `global` event of the pointer driver.
pub fn pointer_driver_binding(interface: &str, version: u32, seat_bound: bool, output_bound: bool) -> (b: Option<(PointerGlobal, u32)>)
    ensures
        b == pointer_binding(interface@, version, seat_bound, output_bound),
{
    if str_eq(interface, "zwlr_virtual_pointer_manager_v1") {
        Some((PointerGlobal::VirtualPointerManager, version.min(2)))
    } else if str_eq(interface, "wl_seat") && !seat_bound {
        Some((PointerGlobal::Seat, version.min(5)))
    } else if str_eq(interface, "wl_output") && !output_bound {
        Some((PointerGlobal::Output, version.min(3)))
    } else {
        None
    }
}

/// The output extent absolute motion is expressed against, from the
/// output's mode: each dimension at least 1.
pub fn extent_from_mode(width: i32, height: i32) -> (extent: (u32, u32))
    ensures
        extent.0 == (if width < 1 { 1 } else { width }),
        extent.1 == (if height < 1 { 1 } else { height }),
{
    (width.max(1) as u32, height.max(1) as u32)
}

/// A protocol timestamp in milliseconds from the milliseconds since the
/// Unix epoch (`None` when the clock is before it): the low 32 bits, as the
/// protocol's `u32` wraps; 0 when the clock is unusable.
pub fn protocol_millis(since_epoch_ms: Option<u128>) -> (t: u32)
    ensures
        t == match since_epoch_ms {
            Some(ms) => (ms % 0x1_0000_0000) as u32,
            None => 0,
        },
{
    match since_epoch_ms {
        Some(ms) => (ms % 0x1_0000_0000) as u32,
        None => 0,
    }
}

/// Law: the globals the pointer driver binds. The virtual-pointer manager
/// is bound at most at version 2 whatever else is bound; the first seat at
/// most at version 5 and the first output at most at version 3, each
/// whether or not the other is already bound; a second seat or output,
/// and every other interface, is not bound.
pub proof fn law_pointer_driver_bindings(
    interface: Seq<char>,
    version: u32,
    seat_bound: bool,
    output_bound: bool,
)
    ensures
        pointer_binding("zwlr_virtual_pointer_manager_v1"@, version, seat_bound, output_bound)
            == Some((PointerGlobal::VirtualPointerManager, if version < 2 { version } else { 2 })),
        pointer_binding("wl_seat"@, version, false, output_bound) == Some(
            (PointerGlobal::Seat, if version < 5 { version } else { 5 }),
        ),
        pointer_binding("wl_seat"@, version, true, output_bound) is None,
        pointer_binding("wl_output"@, version, seat_bound, false) == Some(
            (PointerGlobal::Output, if version < 3 { version } else { 3 }),
        ),
        pointer_binding("wl_output"@, version, seat_bound, true) is None,
        interface != "zwlr_virtual_pointer_manager_v1"@ && interface != "wl_seat"@ && interface
            != "wl_output"@ ==> pointer_binding(interface, version, seat_bound, output_bound) is None,
{
    reveal_strlit("zwlr_virtual_pointer_manager_v1");
    reveal_strlit("wl_seat");
    reveal_strlit("wl_output");
    assert("wl_seat"@ != "zwlr_virtual_pointer_manager_v1"@) by {
        assert("wl_seat"@.len() != "zwlr_virtual_pointer_manager_v1"@.len());
    }
    assert("wl_output"@ != "zwlr_virtual_pointer_manager_v1"@) by {
        assert("wl_output"@.len() != "zwlr_virtual_pointer_manager_v1"@.len());
    }
    assert("wl_output"@ != "wl_seat"@) by {
        assert("wl_output"@.len() != "wl_seat"@.len());
    }
}

/// Law: which command a line names. Whitespace before the command changes
/// nothing, and a blank line quits. `press`, `release`, `click` and `quit`
/// mean themselves whatever follows them; any first word that names no
/// command is an unknown command carrying that word.
pub proof fn law_command_words(pad: Seq<char>, line: Seq<char>, rest: Seq<char>, w: Seq<char>)
    requires
        is_blank(pad),
    ensures
        command_of(pad + line) == command_of(line),
        command_of(pad) == Ok::<CommandView, NumberError>(CommandView::Quit),
        rest.len() == 0 || is_white_space(rest[0]) ==> {
            &&& command_of(seq!['p', 'r', 'e', 's', 's'] + rest) == Ok::<
                CommandView,
                NumberError,
            >(CommandView::Press)
            &&& command_of(seq!['r', 'e', 'l', 'e', 'a', 's', 'e'] + rest) == Ok::<
                CommandView,
                NumberError,
            >(CommandView::Release)
            &&& command_of(seq!['c', 'l', 'i', 'c', 'k'] + rest) == Ok::<
                CommandView,
                NumberError,
            >(CommandView::Click)
            &&& command_of(seq!['q', 'u', 'i', 't'] + rest) == Ok::<CommandView, NumberError>(
                CommandView::Quit,
            )
        },
        is_word(w) && w != seq!['m', 'o', 'v', 'e'] && w != seq!['p', 'r', 'e', 's', 's'] && w
            != seq!['r', 'e', 'l', 'e', 'a', 's', 'e'] && w != seq!['c', 'l', 'i', 'c', 'k'] && w
            != seq!['s', 'l', 'e', 'e', 'p'] && w != seq!['q', 'u', 'i', 't'] && (rest.len() == 0
            || is_white_space(rest[0])) ==> command_of(w + rest) == Ok::<CommandView, NumberError>(
            CommandView::Unknown { word: w },
        ),
{
    let e = Seq::<char>::empty();
    assert(is_blank(e));
    law_next_word(pad, w, rest, line);
    if rest.len() == 0 || is_white_space(rest[0]) {
        let press = seq!['p', 'r', 'e', 's', 's'];
        let release = seq!['r', 'e', 'l', 'e', 'a', 's', 'e'];
        let click = seq!['c', 'l', 'i', 'c', 'k'];
        let quit = seq!['q', 'u', 'i', 't'];
        law_next_word(e, press, rest, line);
        assert(e + press + rest =~= press + rest);
        law_next_word(e, release, rest, line);
        assert(e + release + rest =~= release + rest);
        law_next_word(e, click, rest, line);
        assert(e + click + rest =~= click + rest);
        law_next_word(e, quit, rest, line);
        assert(e + quit + rest =~= quit + rest);
        if is_word(w) {
            law_next_word(e, w, rest, line);
            assert(e + w + rest =~= w + rest);
        }
    }
}

/// Law: `move` with no arguments moves to (0, 0), and `sleep` with none
/// sleeps 100 ms.
pub proof fn law_command_defaults(pad: Seq<char>)
    requires
        is_blank(pad),
    ensures
        command_of(seq!['m', 'o', 'v', 'e'] + pad) == Ok::<CommandView, NumberError>(
            CommandView::Move { x: 0, y: 0 },
        ),
        command_of(seq!['s', 'l', 'e', 'e', 'p'] + pad) == Ok::<CommandView, NumberError>(
            CommandView::Sleep { ms: 100 },
        ),
{
    let e = Seq::<char>::empty();
    assert(is_blank(e));
    let mv = seq!['m', 'o', 'v', 'e'];
    let sl = seq!['s', 'l', 'e', 'e', 'p'];
    assert(pad.len() == 0 || is_white_space(pad[0]));
    law_next_word(e, mv, pad, e);
    assert(e + mv + pad =~= mv + pad);
    law_next_word(pad, e, e, e);
    law_next_word(e, sl, pad, e);
    assert(e + sl + pad =~= sl + pad);
    assert(parse_unsigned(seq!['0'], u32::MAX as int) == Ok::<int, NumberError>(0)) by {
        reveal_with_fuel(scan_digits, 2);
    }
    assert(parse_unsigned(seq!['1', '0', '0'], u64::MAX as int) == Ok::<int, NumberError>(100))
        by {
        reveal_with_fuel(scan_digits, 4);
    }
}

/// Law: the arguments of `move` and `sleep`. `move a b` moves to `x = a`,
/// `y = b`, and `sleep a` sleeps `a` ms; the first argument that is not a
/// number in range is the error.
pub proof fn law_command_arguments(a: Seq<char>, b: Seq<char>)
    requires
        is_word(a),
        is_word(b),
    ensures
        command_of(seq!['m', 'o', 'v', 'e', ' '] + a + seq![' '] + b) == match (
            parse_unsigned(a, u32::MAX as int),
            parse_unsigned(b, u32::MAX as int),
        ) {
            (Ok(x), Ok(y)) => Ok::<CommandView, NumberError>(
                CommandView::Move { x: x as u32, y: y as u32 },
            ),
            (Err(e), _) => Err(e),
            (Ok(_), Err(e)) => Err(e),
        },
        command_of(seq!['s', 'l', 'e', 'e', 'p', ' '] + a) == match parse_unsigned(
            a,
            u64::MAX as int,
        ) {
            Ok(ms) => Ok::<CommandView, NumberError>(CommandView::Sleep { ms: ms as u64 }),
            Err(e) => Err(e),
        },
{
    let e = Seq::<char>::empty();
    assert(is_blank(e));
    let mv = seq!['m', 'o', 'v', 'e'];
    let sl = seq!['s', 'l', 'e', 'e', 'p'];
    let sp = seq![' '];
    assert(is_blank(sp));
    let sa = sl + sp + a;
    assert(sa =~= seq!['s', 'l', 'e', 'e', 'p', ' '] + a);
    law_next_word(e, sl, sp + a, e);
    assert(e + sl + (sp + a) =~= sa);
    law_next_word(sp, a, e, e);
    assert(sp + a + e =~= sp + a);
    let m = mv + sp + a + sp + b;
    assert(m =~= seq!['m', 'o', 'v', 'e', ' '] + a + seq![' '] + b);
    law_next_word(e, mv, sp + a + sp + b, e);
    assert(e + mv + (sp + a + sp + b) =~= m);
    law_next_word(sp, a, sp + b, e);
    assert(sp + a + (sp + b) =~= sp + a + sp + b);
    law_next_word(sp, b, e, e);
    assert(sp + b + e =~= sp + b);
}

} // verus!
