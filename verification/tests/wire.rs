use holdrect::cli::{CliCommand, CommandError};
use holdrect::wire::{decode_request, decode_response, encode_request, encode_response, split_words};

#[test]
fn request_lines_hold_the_typed_words() {
    assert_eq!(encode_request(&CliCommand::Clear), "clear\n");
    assert_eq!(encode_request(&CliCommand::Rect { x1: 500, y1: -20, x2: 100, y2: 400 }), "rect 500 -20 100 400\n");
    assert_eq!(
        encode_request(&CliCommand::Magnifier { x: 800, y: 450, zoom: None }),
        "magnifier 800 450\n"
    );
    assert_eq!(
        encode_request(&CliCommand::Magnifier { x: -1, y: 0, zoom: Some("2.5".to_owned()) }),
        "magnifier -1 0 2.5\n"
    );
    assert_eq!(
        encode_request(&CliCommand::Rect { x1: i32::MIN, y1: i32::MAX, x2: 0, y2: 9 }),
        "rect -2147483648 2147483647 0 9\n"
    );
}

#[test]
fn request_lines_read_back() {
    let commands = [
        CliCommand::Clear,
        CliCommand::Rect { x1: i32::MIN, y1: -20, x2: i32::MAX, y2: 400 },
        CliCommand::Magnifier { x: 800, y: 450, zoom: None },
        CliCommand::Magnifier { x: 1, y: 2, zoom: Some("8".to_owned()) },
    ];
    for command in commands {
        assert_eq!(decode_request(&encode_request(&command)), Ok(command));
    }
}

#[test]
fn request_words_split_at_any_run_of_spaces() {
    assert_eq!(split_words("  rect\t1  2\r\n"), vec!["rect".to_owned(), "1".to_owned(), "2".to_owned()]);
    assert!(split_words(" \n").is_empty());
    assert_eq!(decode_request("clear \r\n"), Ok(CliCommand::Clear));
    assert!(decode_request("rect 1 2 1 4\n").unwrap_err().is_code("invalid_rect"));
    assert!(decode_request("\n").unwrap_err().is_code("usage"));
}

#[test]
fn reply_lines_read_back() {
    assert_eq!(encode_response(&Ok(())), "ok\n");
    let error = CommandError::new("outside_desktop", "invalid point");
    assert_eq!(encode_response(&Err(error.clone())), "error outside_desktop invalid point\n");
    assert_eq!(decode_response(&encode_response(&Ok(()))), Ok(()));
    assert_eq!(decode_response(&encode_response(&Err(error.clone()))), Err(error));
    let bare = CommandError::new("pipe_read", "");
    assert_eq!(decode_response(&encode_response(&Err(bare.clone()))), Err(bare));
}

#[test]
fn reply_lines_that_are_not_replies() {
    assert_eq!(decode_response("ok\r\n"), Ok(()));
    assert_eq!(decode_response("error code"), Err(CommandError::new("code", "")));
    assert!(decode_response("okay\n").unwrap_err().is_code("invalid_response"));
    assert!(decode_response("").unwrap_err().is_code("invalid_response"));
    assert!(decode_response("error").unwrap_err().is_code("invalid_response"));
}
