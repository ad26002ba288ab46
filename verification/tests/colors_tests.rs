use rusty_tools::colors::{colorize, text_colored, Color};
use std::str::FromStr;

#[test]
fn to_ansi_code_of_every_color() {
    assert_eq!(Color::Red.to_ansi_code(), "31");
    assert_eq!(Color::Green.to_ansi_code(), "32");
    assert_eq!(Color::Yellow.to_ansi_code(), "33");
    assert_eq!(Color::Blue.to_ansi_code(), "34");
    assert_eq!(Color::Magenta.to_ansi_code(), "35");
    assert_eq!(Color::Cyan.to_ansi_code(), "36");
    assert_eq!(Color::White.to_ansi_code(), "37");
    assert_eq!(Color::Default.to_ansi_code(), "39");
}

#[test]
fn from_str_reads_the_seven_names() {
    assert_eq!(Color::from_str("red"), Ok(Color::Red));
    assert_eq!(Color::from_str("green"), Ok(Color::Green));
    assert_eq!(Color::from_str("yellow"), Ok(Color::Yellow));
    assert_eq!(Color::from_str("blue"), Ok(Color::Blue));
    assert_eq!(Color::from_str("magenta"), Ok(Color::Magenta));
    assert_eq!(Color::from_str("cyan"), Ok(Color::Cyan));
    assert_eq!(Color::from_str("white"), Ok(Color::White));
}

#[test]
fn from_str_never_fails() {
    assert_eq!(Color::from_str("bogus"), Ok(Color::Default));
    assert_eq!(Color::from_str("default"), Ok(Color::Default));
    assert_eq!(Color::from_str(""), Ok(Color::Default));
    assert_eq!(Color::from_str("Red"), Ok(Color::Default));
    assert_eq!(Color::from_str("red "), Ok(Color::Default));
    assert_eq!(Color::from_str("re"), Ok(Color::Default));
}

#[test]
fn from_a_name_gives_the_named_color() {
    assert_eq!(Color::from("cyan"), Color::Cyan);
    assert_eq!(Color::from("magenta"), Color::Magenta);
    assert_eq!(Color::from("nothing"), Color::Default);
    let color: Color = "blue".into();
    assert_eq!(color, Color::Blue);
}

#[test]
fn default_is_the_default_color() {
    assert_eq!(Color::default(), Color::Default);
}

#[test]
fn text_colored_wraps_the_text() {
    assert_eq!(text_colored("This is a green text", "green"), "\x1b[32mThis is a green text\x1b[0m");
    assert_eq!(text_colored("x", "red"), "\x1b[31mx\x1b[0m");
    assert_eq!(text_colored("x", "yellow"), "\x1b[33mx\x1b[0m");
    assert_eq!(text_colored("x", "blue"), "\x1b[34mx\x1b[0m");
    assert_eq!(text_colored("x", "magenta"), "\x1b[35mx\x1b[0m");
    assert_eq!(text_colored("x", "cyan"), "\x1b[36mx\x1b[0m");
    assert_eq!(text_colored("x", "white"), "\x1b[37mx\x1b[0m");
}

#[test]
fn text_colored_takes_a_color_too() {
    assert_eq!(text_colored("x", Color::Magenta), "\x1b[35mx\x1b[0m");
    assert_eq!(text_colored("x", Color::default()), "\x1b[39mx\x1b[0m");
}

#[test]
fn text_colored_with_an_unknown_name_is_default() {
    assert_eq!(text_colored("x", "bogus"), text_colored("x", "default"));
    assert_eq!(text_colored("x", "bogus"), "\x1b[39mx\x1b[0m");
    assert_eq!(text_colored("x", ""), "\x1b[39mx\x1b[0m");
}

#[test]
fn text_colored_of_empty_text() {
    assert_eq!(text_colored("", "red"), "\x1b[31m\x1b[0m");
}

#[test]
fn colorize_wraps_the_text() {
    assert_eq!(colorize("caf\u{e9}", Color::White), "\x1b[37mcaf\u{e9}\x1b[0m");
    assert_eq!(colorize("a\nb", Color::Default), "\x1b[39ma\nb\x1b[0m");
}
