use line_highlight::style::Style;
use line_highlight::styled::{DisplayOnce, StyledBlock, StyledBlocks};
use std::borrow::Cow;

fn render<D: DisplayOnce>(value: D) -> String {
    let mut sink = String::new();
    value.fmt(&mut sink);
    sink
}

fn bold_blue() -> anstyle::Style {
    anstyle::Style::new()
        .bold()
        .fg_color(Some(anstyle::AnsiColor::Blue.into()))
}

#[test]
fn unit_style_has_empty_tokens() {
    assert_eq!(Style::start(&()), "");
    assert_eq!(Style::end(&()), "");
}

#[test]
fn plain_ansi_style_has_empty_tokens() {
    let plain = anstyle::Style::new();
    assert_eq!(Style::start(&plain), "");
    assert_eq!(Style::end(&plain), "");
}

#[test]
fn ansi_style_renders_its_escape_sequences() {
    let bold = anstyle::Style::new().bold();
    assert_eq!(Style::start(&bold), "\x1b[1m");
    assert_eq!(Style::end(&bold), "\x1b[0m");
    let green = anstyle::Style::new().fg_color(Some(anstyle::AnsiColor::Green.into()));
    assert_eq!(Style::start(&green), "\x1b[32m");
    assert_eq!(Style::end(&green), "\x1b[0m");
}

#[test]
fn bold_blue_renders_effect_then_color() {
    assert_eq!(Style::start(&bold_blue()), "\x1b[1m\x1b[34m");
    assert_eq!(Style::end(&bold_blue()), "\x1b[0m");
}

#[test]
fn ansi_style_tokens_depend_on_the_style_alone() {
    let a = anstyle::Style::new().italic().bg_color(Some(anstyle::Ansi256Color(7).into()));
    let b = anstyle::Style::new().italic().bg_color(Some(anstyle::Ansi256Color(7).into()));
    assert_eq!(Style::start(&a), Style::start(&b));
    assert_eq!(Style::end(&a), Style::end(&b));
    assert_eq!(Style::start(&a), "\x1b[3m\x1b[48;5;7m");
}

#[test]
fn tuple_is_a_styled_block() {
    let borrowed = (bold_blue(), "text");
    assert_eq!(StyledBlock::text(&borrowed), "text");
    assert_eq!(*StyledBlock::style(&borrowed), bold_blue());
    let owned = ((), String::from("owned"));
    assert_eq!(StyledBlock::text(&owned), "owned");
    assert_eq!(*StyledBlock::style(&owned), ());
}

#[test]
fn strings_render_as_themselves() {
    assert_eq!(render("plain \x1b[1mtext\x1b[0m"), "plain \x1b[1mtext\x1b[0m");
    assert_eq!(render(String::from("owned")), "owned");
    assert_eq!(render(Cow::Borrowed("borrowed")), "borrowed");
    let owned: Cow<'static, str> = Cow::Owned(String::from("cow"));
    assert_eq!(render(owned), "cow");
    assert_eq!(render(""), "");
}

#[test]
fn rendering_appends_to_the_sink() {
    let mut sink = String::from(">> ");
    "abc".fmt(&mut sink);
    assert_eq!(sink, ">> abc");
    StyledBlocks::new(vec![((), "d"), ((), "e")]).fmt(&mut sink);
    assert_eq!(sink, ">> abcde");
}

#[test]
fn blocks_render_between_their_tokens() {
    let green = anstyle::Style::new().fg_color(Some(anstyle::AnsiColor::Green.into()));
    let blocks = StyledBlocks::new(vec![
        (anstyle::Style::new(), "let "),
        (bold_blue(), "x"),
        (anstyle::Style::new(), " = "),
        (green, "1"),
    ]);
    assert_eq!(
        render(blocks),
        "let \x1b[1m\x1b[34mx\x1b[0m = \x1b[32m1\x1b[0m"
    );
}

#[test]
fn unstyled_blocks_render_as_their_text() {
    let line = "first\nsecond\nthird";
    let mut blocks = Vec::new();
    for (i, part) in line.split('\n').enumerate() {
        if i > 0 {
            blocks.push(((), String::from("\n.. ")));
        }
        blocks.push(((), String::from(part)));
    }
    assert_eq!(render(StyledBlocks::new(blocks)), "first\n.. second\n.. third");
}

#[test]
fn no_blocks_render_as_nothing() {
    let blocks: Vec<((), &str)> = Vec::new();
    assert_eq!(render(StyledBlocks::new(blocks)), "");
}

#[test]
fn one_block_per_byte() {
    let line = "hello";
    let blocks: Vec<(anstyle::Style, &str)> = (0..line.len())
        .map(|i| {
            let style = anstyle::Style::new().fg_color(Some(anstyle::Ansi256Color(i as u8).into()));
            (style, &line[i..i + 1])
        })
        .collect();
    assert_eq!(
        render(StyledBlocks::new(blocks)),
        "\x1b[38;5;0mh\x1b[0m\x1b[38;5;1me\x1b[0m\x1b[38;5;2ml\x1b[0m\x1b[38;5;3ml\x1b[0m\x1b[38;5;4mo\x1b[0m"
    );
}
