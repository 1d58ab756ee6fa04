use term_wrap::backend::termion::{
    colour_to_termion_colour, map_key, refresh_interval, TermColor, TermKey,
};
use term_wrap::event::{Event, Key};
use term_wrap::theme::{BaseColor, Color};

#[test]
fn named_keys_keep_their_name() {
    assert_eq!(map_key(TermKey::Esc), Event::Key(Key::Esc));
    assert_eq!(map_key(TermKey::Backspace), Event::Key(Key::Backspace));
    assert_eq!(map_key(TermKey::Left), Event::Key(Key::Left));
    assert_eq!(map_key(TermKey::Right), Event::Key(Key::Right));
    assert_eq!(map_key(TermKey::Up), Event::Key(Key::Up));
    assert_eq!(map_key(TermKey::Down), Event::Key(Key::Down));
    assert_eq!(map_key(TermKey::Home), Event::Key(Key::Home));
    assert_eq!(map_key(TermKey::End), Event::Key(Key::End));
    assert_eq!(map_key(TermKey::PageUp), Event::Key(Key::PageUp));
    assert_eq!(map_key(TermKey::PageDown), Event::Key(Key::PageDown));
    assert_eq!(map_key(TermKey::Delete), Event::Key(Key::Del));
    assert_eq!(map_key(TermKey::Insert), Event::Key(Key::Ins));
}

#[test]
fn function_keys_below_twelve_are_keys() {
    assert_eq!(map_key(TermKey::F(0)), Event::Key(Key::F0));
    assert_eq!(map_key(TermKey::F(1)), Event::Key(Key::F1));
    assert_eq!(map_key(TermKey::F(5)), Event::Key(Key::F5));
    assert_eq!(map_key(TermKey::F(11)), Event::Key(Key::F11));
    assert_eq!(map_key(TermKey::F(12)), Event::Unknown(-12));
    assert_eq!(map_key(TermKey::F(13)), Event::Unknown(-13));
    assert_eq!(map_key(TermKey::F(255)), Event::Unknown(-255));
}

#[test]
fn characters_become_events() {
    assert_eq!(map_key(TermKey::Char('\n')), Event::Key(Key::Enter));
    assert_eq!(map_key(TermKey::Char('\t')), Event::Key(Key::Tab));
    assert_eq!(map_key(TermKey::Char('a')), Event::Char('a'));
    assert_eq!(map_key(TermKey::Char('Ｈ')), Event::Char('Ｈ'));
    assert_eq!(map_key(TermKey::Ctrl('c')), Event::Exit);
    assert_eq!(map_key(TermKey::Ctrl('d')), Event::CtrlChar('d'));
    assert_eq!(map_key(TermKey::Ctrl('C')), Event::CtrlChar('C'));
    assert_eq!(map_key(TermKey::Alt('c')), Event::AltChar('c'));
    assert_eq!(map_key(TermKey::Other), Event::Unknown(-1));
}

#[test]
fn from_f_numbers_the_function_keys() {
    let keys = [
        Key::F0,
        Key::F1,
        Key::F2,
        Key::F3,
        Key::F4,
        Key::F5,
        Key::F6,
        Key::F7,
        Key::F8,
        Key::F9,
        Key::F10,
        Key::F11,
        Key::F12,
    ];
    for n in 0..13u8 {
        assert_eq!(Key::from_f(n), keys[n as usize]);
    }
}

#[test]
fn base_colors_are_the_first_of_the_palette() {
    let bases = [
        BaseColor::Black,
        BaseColor::Red,
        BaseColor::Green,
        BaseColor::Yellow,
        BaseColor::Blue,
        BaseColor::Magenta,
        BaseColor::Cyan,
        BaseColor::White,
    ];
    for (index, base) in bases.iter().enumerate() {
        assert_eq!(base.palette_index(), index as u8);
        assert_eq!(
            colour_to_termion_colour(&Color::Dark(*base)),
            TermColor::Ansi(index as u8)
        );
        assert_eq!(
            colour_to_termion_colour(&Color::Light(*base)),
            TermColor::Ansi(8 + index as u8)
        );
    }
}

#[test]
fn true_colors_are_kept() {
    assert_eq!(
        colour_to_termion_colour(&Color::Rgb(1, 2, 3)),
        TermColor::Rgb(1, 2, 3)
    );
    assert_eq!(
        colour_to_termion_colour(&Color::Rgb(255, 0, 128)),
        TermColor::Rgb(255, 0, 128)
    );
}

#[test]
fn low_resolution_colors_are_in_the_cube() {
    assert_eq!(
        colour_to_termion_colour(&Color::RgbLowRes(0, 0, 0)),
        TermColor::Ansi(16)
    );
    assert_eq!(
        colour_to_termion_colour(&Color::RgbLowRes(1, 2, 3)),
        TermColor::Ansi(67)
    );
    assert_eq!(
        colour_to_termion_colour(&Color::RgbLowRes(5, 5, 5)),
        TermColor::Ansi(231)
    );
    assert_eq!(
        colour_to_termion_colour(&Color::RgbLowRes(5, 0, 0)),
        TermColor::Ansi(196)
    );
}

#[test]
fn refresh_interval_divides_a_second() {
    assert_eq!(refresh_interval(1), 1000);
    assert_eq!(refresh_interval(30), 33);
    assert_eq!(refresh_interval(60), 16);
    assert_eq!(refresh_interval(1000), 1);
    assert_eq!(refresh_interval(1001), 0);
}
