use room_broker::command::{parse_line, Command};
use room_broker::text::{chars_of, is_space_char, join_strings, split_at_blank, trim};

fn s(text: &str) -> String {
    text.to_string()
}

#[test]
fn subscribe_with_room() {
    assert_eq!(parse_line("/subscribe lobby"), Command::Subscribe { room: s("lobby") });
    assert_eq!(parse_line("  /subscribe lobby \n"), Command::Subscribe { room: s("lobby") });
}

#[test]
fn subscribe_room_is_all_that_follows_the_first_blank() {
    assert_eq!(parse_line("/subscribe my room"), Command::Subscribe { room: s("my room") });
    assert_eq!(parse_line("/subscribe  lobby"), Command::Subscribe { room: s(" lobby") });
}

#[test]
fn subscribe_without_room() {
    assert_eq!(parse_line("/subscribe"), Command::SubscribeWithoutRoom);
    assert_eq!(parse_line("/subscribe   "), Command::SubscribeWithoutRoom);
}

#[test]
fn unsubscribe_with_and_without_room() {
    assert_eq!(parse_line("/unsubscribe lobby"), Command::Unsubscribe { room: s("lobby") });
    assert_eq!(parse_line("/unsubscribe"), Command::UnsubscribeWithoutRoom);
    assert_eq!(parse_line("\t/unsubscribe\t"), Command::UnsubscribeWithoutRoom);
}

#[test]
fn list_and_current_ignore_what_follows() {
    assert_eq!(parse_line("/list"), Command::List);
    assert_eq!(parse_line("/list everything"), Command::List);
    assert_eq!(parse_line("/current"), Command::Current);
    assert_eq!(parse_line(" /current now "), Command::Current);
}

#[test]
fn send_with_room_and_message() {
    assert_eq!(
        parse_line("/send lobby hello"),
        Command::Send { room: s("lobby"), message: s("hello") }
    );
    assert_eq!(
        parse_line("/send lobby hello there,  world"),
        Command::Send { room: s("lobby"), message: s("hello there,  world") }
    );
    assert_eq!(
        parse_line("/send lobby  x"),
        Command::Send { room: s("lobby"), message: s(" x") }
    );
}

#[test]
fn send_without_room() {
    assert_eq!(parse_line("/send"), Command::SendWithoutRoom);
    assert_eq!(parse_line("/send  "), Command::SendWithoutRoom);
    assert_eq!(parse_line("/send  hello"), Command::SendWithoutRoom);
}

#[test]
fn send_without_message() {
    assert_eq!(parse_line("/send lobby"), Command::SendWithoutMessage);
    assert_eq!(parse_line("/send lobby "), Command::SendWithoutMessage);
}

#[test]
fn unknown_commands_keep_the_line_as_read() {
    assert_eq!(parse_line("/join lobby"), Command::Unknown { line: s("/join lobby") });
    assert_eq!(parse_line("  /nope  "), Command::Unknown { line: s("/nope") });
    assert_eq!(parse_line("/"), Command::Unknown { line: s("/") });
    assert_eq!(parse_line("/Subscribe lobby"), Command::Unknown { line: s("/Subscribe lobby") });
    assert_eq!(parse_line("/subscribe\tlobby"), Command::Unknown { line: s("/subscribe\tlobby") });
    assert_eq!(parse_line("/sendlobby hi"), Command::Unknown { line: s("/sendlobby hi") });
}

#[test]
fn plain_text_is_echoed_without_outer_white_space() {
    assert_eq!(parse_line("hello"), Command::Echo { text: s("hello") });
    assert_eq!(parse_line("  hello  world \r\n"), Command::Echo { text: s("hello  world") });
    assert_eq!(parse_line("say /list"), Command::Echo { text: s("say /list") });
    assert_eq!(parse_line(""), Command::Echo { text: s("") });
    assert_eq!(parse_line(" \t\n"), Command::Echo { text: s("") });
}

#[test]
fn text_beyond_ascii_is_kept() {
    assert_eq!(
        parse_line("/send caf\u{e9} gr\u{fc}\u{df} dich \u{1f600}"),
        Command::Send { room: s("caf\u{e9}"), message: s("gr\u{fc}\u{df} dich \u{1f600}") }
    );
    assert_eq!(
        parse_line("\u{3000}/subscribe \u{4e16}\u{754c}\u{a0}"),
        Command::Subscribe { room: s("\u{4e16}\u{754c}") }
    );
}

#[test]
fn trim_agrees_with_the_standard_library() {
    let samples = [
        "",
        " ",
        "a",
        " a",
        "a ",
        "  a b  ",
        "\t\n\u{b}\u{c}\r a \u{85}\u{a0}",
        "\u{1680}x\u{2000}\u{2001}\u{2002}\u{2003}\u{2004}\u{2005}",
        "\u{2006}\u{2007}\u{2008}\u{2009}\u{200a}y\u{2028}\u{2029}\u{202f}\u{205f}\u{3000}",
        "\u{200b}z\u{200b}",
        "\u{feff}w",
        "\u{1c}q\u{1f}",
        " \u{e9} ",
    ];
    for sample in samples {
        assert_eq!(trim(sample), sample.trim(), "sample {:?}", sample);
    }
}

#[test]
fn white_space_agrees_with_the_standard_library() {
    let mut code: u32 = 0;
    while code <= 0x3100 {
        if let Some(c) = char::from_u32(code) {
            assert_eq!(is_space_char(c), c.is_whitespace(), "code {:x}", code);
        }
        code += 1;
    }
    assert!(!is_space_char('\u{1f600}'));
    assert!(!is_space_char('\u{feff}'));
}

#[test]
fn split_at_first_blank() {
    assert_eq!(split_at_blank("a b c"), (s("a"), Some(s("b c"))));
    assert_eq!(split_at_blank("abc"), (s("abc"), None));
    assert_eq!(split_at_blank(""), (s(""), None));
    assert_eq!(split_at_blank(" x"), (s(""), Some(s("x"))));
    assert_eq!(split_at_blank("x "), (s("x"), Some(s(""))));
    assert_eq!(split_at_blank("a\tb c"), (s("a\tb"), Some(s("c"))));
    assert_eq!(split_at_blank("\u{e9}\u{e9} \u{fc}"), (s("\u{e9}\u{e9}"), Some(s("\u{fc}"))));
}

#[test]
fn chars_of_gives_each_character() {
    assert_eq!(chars_of("a\u{e9}\u{1f600}"), vec!['a', '\u{e9}', '\u{1f600}']);
    assert_eq!(chars_of(""), Vec::<char>::new());
}

#[test]
fn join_strings_puts_the_separator_between() {
    assert_eq!(join_strings(&vec![], ";"), "");
    assert_eq!(join_strings(&vec![s("a")], ";"), "a");
    assert_eq!(join_strings(&vec![s("a"), s("b"), s("c")], ";"), "a;b;c");
    assert_eq!(join_strings(&vec![s(""), s("")], ", "), ", ");
}
