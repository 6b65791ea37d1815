use arlen_comp::number::NumberError;
use arlen_comp::pointer_driver::{
    extent_from_mode, parse_command, pointer_driver_binding, protocol_millis, Command,
    PointerGlobal,
};

#[test]
fn commands_are_read_by_their_first_word() {
    assert_eq!(parse_command("move 600 500"), Ok(Command::Move { x: 600, y: 500 }));
    assert_eq!(parse_command("  press  "), Ok(Command::Press));
    assert_eq!(parse_command("release"), Ok(Command::Release));
    assert_eq!(parse_command("click now please"), Ok(Command::Click));
    assert_eq!(parse_command("sleep 250"), Ok(Command::Sleep { ms: 250 }));
    assert_eq!(parse_command("quit"), Ok(Command::Quit));
    assert_eq!(parse_command(""), Ok(Command::Quit));
    assert_eq!(parse_command(" \t "), Ok(Command::Quit));
    assert_eq!(
        parse_command("jump 3"),
        Ok(Command::Unknown { word: "jump".to_string() })
    );
    assert_eq!(
        parse_command("  héllo\u{00A0}x"),
        Ok(Command::Unknown { word: "héllo".to_string() })
    );
}

#[test]
fn missing_arguments_take_their_defaults() {
    assert_eq!(parse_command("move"), Ok(Command::Move { x: 0, y: 0 }));
    assert_eq!(parse_command("move 7"), Ok(Command::Move { x: 7, y: 0 }));
    assert_eq!(parse_command("sleep"), Ok(Command::Sleep { ms: 100 }));
}

#[test]
fn a_bad_number_is_an_error() {
    assert_eq!(parse_command("move x 1"), Err(NumberError::InvalidDigit));
    assert_eq!(parse_command("move 1 -1"), Err(NumberError::InvalidDigit));
    assert_eq!(parse_command("move 4294967296 1"), Err(NumberError::PosOverflow));
    assert_eq!(parse_command("move 4294967295 +2"), Ok(Command::Move { x: 4294967295, y: 2 }));
    assert_eq!(parse_command("move + 1"), Err(NumberError::InvalidDigit));
    assert_eq!(parse_command("sleep 18446744073709551616"), Err(NumberError::PosOverflow));
    assert_eq!(parse_command("sleep 99999999999999999999x"), Err(NumberError::PosOverflow));
}

#[test]
fn numbers_agree_with_std_parse() {
    for s in ["0", "+0", "007", "4294967295", "4294967296", "+", "-1", "1x", "x1", "99999999999"] {
        let line = format!("move {s} 1");
        let ours = parse_command(&line).ok();
        let std = s.parse::<u32>().ok().map(|x| Command::Move { x, y: 1 });
        assert_eq!(ours, std, "{s}");
    }
}

#[test]
fn the_driver_binds_the_manager_and_the_first_seat_and_output() {
    assert_eq!(
        pointer_driver_binding("zwlr_virtual_pointer_manager_v1", 5, true, true),
        Some((PointerGlobal::VirtualPointerManager, 2))
    );
    assert_eq!(pointer_driver_binding("wl_seat", 9, false, false), Some((PointerGlobal::Seat, 5)));
    assert_eq!(pointer_driver_binding("wl_seat", 3, false, false), Some((PointerGlobal::Seat, 3)));
    assert_eq!(pointer_driver_binding("wl_seat", 9, true, false), None);
    assert_eq!(pointer_driver_binding("wl_output", 4, false, false), Some((PointerGlobal::Output, 3)));
    assert_eq!(pointer_driver_binding("wl_output", 4, false, true), None);
    assert_eq!(pointer_driver_binding("wl_shm", 1, false, false), None);
}

#[test]
fn the_extent_is_at_least_one_pixel() {
    assert_eq!(extent_from_mode(1920, 1080), (1920, 1080));
    assert_eq!(extent_from_mode(0, -5), (1, 1));
}

#[test]
fn timestamps_wrap_to_32_bits() {
    assert_eq!(protocol_millis(None), 0);
    assert_eq!(protocol_millis(Some(1234)), 1234);
    assert_eq!(protocol_millis(Some(0x1_0000_0005)), 5);
    let ms: u128 = 1_725_029_869_123;
    assert_eq!(protocol_millis(Some(ms)), ms as u32);
}
