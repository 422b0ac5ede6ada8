use nesti::elements::color::Color;
use nesti::elements::content::Content;
use nesti::elements::decimal::decimal_prior;
use nesti::elements::prepared::Prepared;
use nesti::elements::number::{Integer, IntegerDelta, IntegerLike, IntegerUnit};
use nesti::elements::progress::{
    count_filled, count_percent_tenths, count_rate_tenths, Progress,
};
use nesti::elements::size::{Bytes, Gigabytes, Kilobytes, Megabytes, Petabytes, Terabytes};
use nesti::elements::text::Text;
use nesti::elements::timer::{EndTimer, Timer, Truncate};
use nesti::elements::Element;
use nesti::slot::{ElementError, NumericValue, ProgressState, Slot, StoppedTimer, TimeComponent};
use nesti::style::{Palette16, Styles, TextFg};

fn red() -> Styles {
    Styles::new().with(TextFg(Palette16::Red))
}

#[test]
fn text_replaces_content_and_keeps_the_rest() {
    let mut prior = Slot::new();
    prior.numeric = Some(NumericValue::U8(3));
    prior.style = red();
    let slot = Text(String::from("hello")).tick(&prior, None, 0).unwrap();
    assert_eq!(slot.content, "hello");
    assert_eq!(slot.style, red());
    assert_eq!(slot.numeric, Some(NumericValue::U8(3)));
}

#[test]
fn strings_are_elements() {
    assert_eq!("amd64".spawn(None, 0).unwrap().content, "amd64");
    assert_eq!(String::from("x86").spawn(Some(red()), 0).unwrap().style, red());
}

#[test]
fn spawn_starts_from_the_empty_state() {
    let slot = Text(String::from("x")).spawn(None, 5).unwrap();
    assert_eq!(slot.content, "x");
    assert_eq!(slot.style, Styles::new());
    assert_eq!(slot.numeric, None);
    assert_eq!(slot.timer, None);
    assert_eq!(slot.stopped, None);
    assert_eq!(slot.progress, None);
}

#[test]
fn truth_values_have_text_and_colour() {
    let yes = true.spawn(None, 0).unwrap();
    assert_eq!(yes.content, " TRUE ●");
    assert_eq!(yes.style.text_fg, Some(Palette16::Green));
    let no = false.spawn(None, 0).unwrap();
    assert_eq!(no.content, "FALSE ○");
    assert_eq!(no.style.text_fg, Some(Palette16::Red));
    let blue = Styles::new().with(TextFg(Palette16::Blue));
    assert_eq!(true.spawn(Some(blue), 0).unwrap().style, blue);
}

#[test]
fn integers_are_grouped_and_kept() {
    let slot = Integer(1234567u64).spawn(None, 0).unwrap();
    assert_eq!(slot.content, "1,234,567");
    assert_eq!(slot.numeric, Some(NumericValue::U64(1234567)));
    let slot = Integer(-1234i32).spawn(None, 0).unwrap();
    assert_eq!(slot.content, "-1,234");
    assert_eq!(slot.numeric, Some(NumericValue::I32(-1234)));
    assert_eq!(Integer(0u8).spawn(None, 0).unwrap().content, "0");
    assert_eq!(Integer(i128::MIN).spawn(None, 0).unwrap().content,
        "-170,141,183,460,469,231,731,687,303,715,884,105,728");
    assert_eq!(Integer(u128::MAX).spawn(None, 0).unwrap().content,
        "340,282,366,920,938,463,463,374,607,431,768,211,455");
}

#[test]
fn every_width_formats_the_same_number_the_same_way() {
    assert_eq!(100i8.formatted(), "100");
    assert_eq!(12345i16.formatted(), "12,345");
    assert_eq!(12345i32.formatted(), "12,345");
    assert_eq!(12345i64.formatted(), "12,345");
    assert_eq!(12345i128.formatted(), "12,345");
    assert_eq!(12345isize.formatted(), "12,345");
    assert_eq!(200u8.formatted(), "200");
    assert_eq!(12345u16.formatted(), "12,345");
    assert_eq!(12345u32.formatted(), "12,345");
    assert_eq!(12345u64.formatted(), "12,345");
    assert_eq!(12345u128.formatted(), "12,345");
    assert_eq!(12345usize.formatted(), "12,345");
}

#[test]
fn integer_with_unit() {
    let slot = IntegerUnit(8u64, String::from("cores")).spawn(None, 0).unwrap();
    assert_eq!(slot.content, "8 cores");
    assert_eq!(slot.numeric, None);
    let slot = IntegerUnit(-2500i64, String::from("m")).spawn(None, 0).unwrap();
    assert_eq!(slot.content, "-2,500 m");
}

#[test]
fn delta_add_after_integer_gives_the_sum() {
    let first = Integer(5u64).spawn(None, 0).unwrap();
    let second = Integer(3u64).add().tick(&first, None, 0).unwrap();
    assert_eq!(second.numeric, Some(NumericValue::U64(8)));
    assert_eq!(second.content, "8");
}

#[test]
fn delta_add_without_value_starts_from_the_operand() {
    let slot = Integer(7i32).add().spawn(None, 0).unwrap();
    assert_eq!(slot.numeric, Some(NumericValue::I32(7)));
    assert_eq!(slot.content, "7");
}

#[test]
fn other_deltas_without_value_are_refused() {
    assert_eq!(Integer(7i32).sub().spawn(None, 0).unwrap_err(), ElementError::MissingValue);
    assert_eq!(Integer(7i32).mul().spawn(None, 0).unwrap_err(), ElementError::MissingValue);
    assert_eq!(Integer(7i32).div().spawn(None, 0).unwrap_err(), ElementError::MissingValue);
}

#[test]
fn delta_of_another_width_is_refused() {
    let first = Integer(5u64).spawn(None, 0).unwrap();
    assert_eq!(Integer(3u32).add().tick(&first, None, 0).unwrap_err(), ElementError::ContextMismatch);
    assert_eq!(Integer(3i64).sub().tick(&first, None, 0).unwrap_err(), ElementError::ContextMismatch);
}

#[test]
fn deltas_compute() {
    let base = Integer(1000i64).spawn(None, 0).unwrap();
    assert_eq!(Integer(1i64).sub().tick(&base, None, 0).unwrap().content, "999");
    assert_eq!(Integer(-3i64).mul().tick(&base, None, 0).unwrap().content, "-3,000");
    assert_eq!(Integer(7i64).div().tick(&base, None, 0).unwrap().content, "142");
    assert_eq!(Integer(-7i64).div().tick(&base, None, 0).unwrap().numeric, Some(NumericValue::I64(-142)));
    let negative = Integer(-1000i64).spawn(None, 0).unwrap();
    assert_eq!(Integer(7i64).div().tick(&negative, None, 0).unwrap().numeric, Some(NumericValue::I64(-142)));
    assert_eq!(Integer(-7i64).div().tick(&negative, None, 0).unwrap().numeric, Some(NumericValue::I64(142)));
}

#[test]
fn deltas_that_overflow_are_refused() {
    let top = Integer(255u8).spawn(None, 0).unwrap();
    assert_eq!(Integer(1u8).add().tick(&top, None, 0).unwrap_err(), ElementError::Overflow);
    assert_eq!(Integer(2u8).mul().tick(&top, None, 0).unwrap_err(), ElementError::Overflow);
    let zero = Integer(0u8).spawn(None, 0).unwrap();
    assert_eq!(Integer(1u8).sub().tick(&zero, None, 0).unwrap_err(), ElementError::Overflow);
    let least = Integer(i8::MIN).spawn(None, 0).unwrap();
    assert_eq!(Integer(-1i8).div().tick(&least, None, 0).unwrap_err(), ElementError::Overflow);
    assert_eq!(Integer(-1i8).mul().tick(&least, None, 0).unwrap_err(), ElementError::Overflow);
}

#[test]
fn division_by_zero_is_refused() {
    let base = Integer(10u32).spawn(None, 0).unwrap();
    assert_eq!(Integer(0u32).div().tick(&base, None, 0).unwrap_err(), ElementError::DivisionByZero);
    let base = Integer(10i16).spawn(None, 0).unwrap();
    assert_eq!(Integer(0i16).div().tick(&base, None, 0).unwrap_err(), ElementError::DivisionByZero);
}

#[test]
fn integer_like_arithmetic_is_checked() {
    assert_eq!(100i8.add(27), Ok(127));
    assert_eq!(100i8.add(28), Err(ElementError::Overflow));
    assert_eq!(3u16.sub(4), Err(ElementError::Overflow));
    assert_eq!(7usize.mul(6), Ok(42));
    assert_eq!((-7isize).div(2), Ok(-3));
    assert_eq!(7u128.div(0), Err(ElementError::DivisionByZero));
    assert_eq!(u64::from_numeric_value(&NumericValue::U64(9)), Some(9));
    assert_eq!(u64::from_numeric_value(&NumericValue::I64(9)), None);
    assert_eq!(9i16.to_numeric_value(), NumericValue::I16(9));
    assert_eq!(IntegerDelta::Sub(4u8).apply(10), Ok(6));
    assert_eq!(IntegerDelta::Add(4u8).resolve(&None), Ok(4));
    assert_eq!(IntegerDelta::Div(4u8).resolve(&Some(NumericValue::U8(9))), Ok(2));
}

#[test]
fn sizes_are_humanized() {
    assert_eq!(Bytes(0).spawn(None, 0).unwrap().content, bytesize::ByteSize::b(0).to_string());
    assert_eq!(Bytes(1536).spawn(None, 0).unwrap().content, "1.5 KiB");
    assert_eq!(Kilobytes(1).spawn(None, 0).unwrap().content, bytesize::ByteSize::kb(1).to_string());
    assert_eq!(Megabytes(5).spawn(None, 0).unwrap().content, bytesize::ByteSize::mb(5).to_string());
    assert_eq!(Gigabytes(3).spawn(None, 0).unwrap().content, bytesize::ByteSize::gb(3).to_string());
    assert_eq!(Terabytes(2).spawn(None, 0).unwrap().content, bytesize::ByteSize::tb(2).to_string());
    assert_eq!(Petabytes(1).spawn(None, 0).unwrap().content, bytesize::ByteSize::pb(1).to_string());
}

#[test]
fn sizes_that_no_u64_holds_are_refused() {
    assert_eq!(Petabytes(u64::MAX).spawn(None, 0).unwrap_err(), ElementError::Overflow);
    assert_eq!(Kilobytes(u64::MAX / 1000 + 1).spawn(None, 0).unwrap_err(), ElementError::Overflow);
    assert!(Kilobytes(u64::MAX / 1000).spawn(None, 0).is_ok());
}

#[test]
fn half_done_bar_is_half_filled() {
    let progress = Progress {
        current: 50,
        maximum: 100,
        show_percent: true,
        show_values: false,
        show_rate: false,
    };
    let slot = progress.spawn(None, 0).unwrap();
    assert_eq!(slot.content, format!("{}{} 50.0%", "━".repeat(10), "┄".repeat(10)));
    assert_eq!(slot.timer, None);
    assert_eq!(slot.progress, None);
}

#[test]
fn bar_cells_are_rounded_down_and_clamped() {
    assert_eq!(count_filled(0, 100), 0);
    assert_eq!(count_filled(4, 100), 0);
    assert_eq!(count_filled(5, 100), 1);
    assert_eq!(count_filled(99, 100), 19);
    assert_eq!(count_filled(100, 100), 20);
    assert_eq!(count_filled(250, 100), 20);
    assert_eq!(count_filled(7, 0), 0);
    assert_eq!(count_filled(u64::MAX - 1, u64::MAX), 19);
}

#[test]
fn percent_and_rate_are_rounded_to_tenths() {
    assert_eq!(count_percent_tenths(50, 100), 500);
    assert_eq!(count_percent_tenths(1, 3), 333);
    assert_eq!(count_percent_tenths(2, 3), 667);
    assert_eq!(count_percent_tenths(1, 0), 0);
    assert_eq!(count_percent_tenths(3, 2), 1500);
    assert_eq!(count_rate_tenths(10, 1_000_000_000), 100);
    assert_eq!(count_rate_tenths(1, 3_000_000_000), 3);
    assert_eq!(count_rate_tenths(5, 0), 0);
}

#[test]
fn bar_shows_what_is_asked_for() {
    let progress = Progress {
        current: 1500,
        maximum: 2000,
        show_percent: true,
        show_values: true,
        show_rate: true,
    };
    let timer = Some(TimeComponent(0));
    let state = Some(ProgressState { initial_value: 500, last_value: 1000 });
    assert_eq!(
        progress.render_bar(timer, state, 4_000_000_000),
        format!("{}{} 75.0% (1,500 / 2,000) 250.0/s", "━".repeat(15), "┄".repeat(5))
    );
    let empty = Progress { current: 0, maximum: 0, show_percent: true, show_values: false, show_rate: true };
    assert_eq!(empty.render_bar(None, None, 9), format!("{} 0.0% 0.0/s", "┄".repeat(20)));
}

#[test]
fn rate_measurement_starts_with_the_first_value() {
    let progress = Progress { current: 10, maximum: 100, show_percent: false, show_values: false, show_rate: true };
    let slot = progress.spawn(None, 1_000).unwrap();
    assert_eq!(slot.timer, Some(TimeComponent(1_000)));
    assert_eq!(slot.progress, Some(ProgressState { initial_value: 10, last_value: 10 }));
    assert_eq!(slot.content, format!("{}{} 0.0/s", "━".repeat(2), "┄".repeat(18)));

    let later = Progress { current: 30, ..progress };
    let slot = later.tick(&slot, None, 2_000_001_000).unwrap();
    assert_eq!(slot.timer, Some(TimeComponent(1_000)));
    assert_eq!(slot.progress, Some(ProgressState { initial_value: 10, last_value: 30 }));
    assert_eq!(slot.content, format!("{}{} 10.0/s", "━".repeat(6), "┄".repeat(14)));

    let back = Progress { current: 5, ..progress };
    let slot = back.tick(&slot, None, 3_000_000_000).unwrap();
    assert_eq!(slot.timer, Some(TimeComponent(3_000_000_000)));
    assert_eq!(slot.progress, Some(ProgressState { initial_value: 5, last_value: 5 }));
    assert_eq!(slot.content, format!("{}{} 0.0/s", "━".repeat(1), "┄".repeat(19)));
}

#[test]
fn timer_starts_at_its_first_evaluation() {
    let slot = Timer(Truncate::Millis).spawn(None, 5_000_000_000).unwrap();
    assert_eq!(slot.timer, Some(TimeComponent(5_000_000_000)));
    assert_eq!(slot.stopped, None);
    assert_eq!(slot.content, "");
    let slot = Timer(Truncate::Second).spawn(None, 5_000_000_000).unwrap();
    assert_eq!(slot.content, "0s");
}

#[test]
fn running_timer_is_not_reset() {
    let first = Timer(Truncate::Millis).spawn(None, 1_000_000_000).unwrap();
    let second = Timer(Truncate::Millis).tick(&first, None, 2_500_000_000).unwrap();
    assert_eq!(second.timer, Some(TimeComponent(1_000_000_000)));
    assert_eq!(second.content, "1s 500ms");
    let third = Timer(Truncate::Second).tick(&second, None, 63_000_000_000).unwrap();
    assert_eq!(third.content, "1m 2s");
}

#[test]
fn end_timer_freezes_and_timer_restarts() {
    let running = Timer(Truncate::Second).spawn(None, 1_000_000_000).unwrap();
    let shown = Timer(Truncate::Second).tick(&running, None, 4_000_000_000).unwrap();
    let ended = EndTimer.tick(&shown, None, 5_000_000_000).unwrap();
    assert_eq!(ended.timer, None);
    assert_eq!(ended.stopped, Some(StoppedTimer { elapsed: 4_000_000_000 }));
    assert_eq!(ended.content, "3s");
    let again = EndTimer.tick(&ended, None, 9_000_000_000).unwrap();
    assert_eq!(again.stopped, Some(StoppedTimer { elapsed: 4_000_000_000 }));
    let restarted = Timer(Truncate::Second).tick(&ended, None, 10_000_000_000).unwrap();
    assert_eq!(restarted.timer, Some(TimeComponent(10_000_000_000)));
    assert_eq!(restarted.stopped, None);
    assert_eq!(restarted.content, "0s");
}

#[test]
fn timer_units_truncate() {
    let start = Timer(Truncate::Nano).spawn(None, 0).unwrap();
    let nanos = 3_723_004_005_006u64;
    assert_eq!(Timer(Truncate::Nano).tick(&start, None, nanos).unwrap().content, "1h 2m 3s 4ms 5µs 6ns");
    assert_eq!(Timer(Truncate::Micro).tick(&start, None, nanos).unwrap().content, "1h 2m 3s 4ms 5µs");
    assert_eq!(Timer(Truncate::Minute).tick(&start, None, nanos).unwrap().content, "1h 2m");
    assert_eq!(Timer(Truncate::Hour).tick(&start, None, nanos).unwrap().content, "1h");
    assert_eq!(Timer(Truncate::Day).tick(&start, None, 3 * 86_400_000_000_000).unwrap().content, "3days");
    assert_eq!(Timer(Truncate::Month).tick(&start, None, nanos).unwrap().content, "0months");
    assert_eq!(Timer(Truncate::Year).tick(&start, None, nanos).unwrap().content, "0years");
}

#[test]
fn colour_decorator_imposes_its_colour() {
    let slot = Color::Cyan(Text(String::from("x"))).spawn(None, 0).unwrap();
    assert_eq!(slot.content, "x");
    assert_eq!(slot.style.text_fg, Some(Palette16::Cyan));
    let slot = Color::Magenta(true).spawn(None, 0).unwrap();
    assert_eq!(slot.style.text_fg, Some(Palette16::Magenta));
    let slot = Color::Red(Color::Green(Integer(1u8))).spawn(Some(Styles::new()), 0).unwrap();
    assert_eq!(slot.style.text_fg, Some(Palette16::Green));
    assert_eq!(slot.numeric, Some(NumericValue::U8(1)));
    assert_eq!(Color::Plain(Bytes(1)).to_palette(), Palette16::Default);
    assert_eq!(Color::BrightWhite(Bytes(1)).to_palette(), Palette16::BrightWhite);
    assert_eq!(Color::Yellow(Bytes(7)).content().0, 7);
    assert!(Color::Blue(Integer(1u8).sub()).spawn(None, 0).is_err());
}

#[test]
fn undecorated_element_keeps_the_style_of_the_node() {
    let coloured = Color::Red(Text(String::from("a"))).spawn(None, 0).unwrap();
    let plain = Text(String::from("b")).tick(&coloured, None, 0).unwrap();
    assert_eq!(plain.style.text_fg, Some(Palette16::Red));
}

#[test]
fn palette_codes() {
    assert_eq!(Palette16::Black.code(), 0);
    assert_eq!(Palette16::BrightWhite.code(), 15);
    assert_eq!(Palette16::Default.code(), 16);
    assert_eq!(Palette16::Hidden.code(), 17);
    assert_eq!(Truncate::Nano.code(), 0);
    assert_eq!(Truncate::Year.code(), 8);
}

#[test]
fn prepared_state_is_taken_as_it_is() {
    let mut ready = Slot::new();
    ready.content = String::from("3.14");
    ready.numeric = Some(NumericValue::F64(3.14f64.to_bits()));
    let mut prior = Slot::new();
    prior.numeric = Some(NumericValue::U8(1));
    prior.timer = Some(TimeComponent(4));
    let slot = Prepared(ready).tick(&prior, Some(red()), 0).unwrap();
    assert_eq!(slot.content, "3.14");
    assert_eq!(slot.numeric, Some(NumericValue::F64(3.14f64.to_bits())));
    assert_eq!(slot.timer, None);
    assert_eq!(slot.style, red());
}

#[test]
fn content_kinds_evaluate_like_their_elements() {
    assert_eq!(Content::Text(String::from("t")).spawn(None, 0).unwrap().content, "t");
    assert_eq!(Content::Integer(1200).spawn(None, 0).unwrap().content, "1,200");
    assert_eq!(Content::Integer(1200).spawn(None, 0).unwrap().numeric, Some(NumericValue::U64(1200)));
    assert_eq!(Content::IntegerUnit(4, String::from("cores")).spawn(None, 0).unwrap().content, "4 cores");
    assert_eq!(Content::Bytes(1536).spawn(None, 0).unwrap().content, "1.5 KiB");
    assert_eq!(
        Content::Kilobytes(3).spawn(None, 0).unwrap().content,
        Kilobytes(3).spawn(None, 0).unwrap().content
    );
    assert_eq!(
        Content::Megabytes(3).spawn(None, 0).unwrap().content,
        Megabytes(3).spawn(None, 0).unwrap().content
    );
    assert_eq!(
        Content::Gigabytes(3).spawn(None, 0).unwrap().content,
        Gigabytes(3).spawn(None, 0).unwrap().content
    );
    assert_eq!(
        Content::Terabytes(3).spawn(None, 0).unwrap().content,
        Terabytes(3).spawn(None, 0).unwrap().content
    );
    assert_eq!(
        Content::Petabytes(3).spawn(None, 0).unwrap().content,
        Petabytes(3).spawn(None, 0).unwrap().content
    );
    assert_eq!(Content::Petabytes(u64::MAX).spawn(None, 0).unwrap_err(), ElementError::Overflow);
    let started = Content::Stopwatch(Truncate::Second).spawn(None, 1_000_000_000).unwrap();
    assert_eq!(started.timer, Some(TimeComponent(1_000_000_000)));
    assert_eq!(Content::Stopwatch(Truncate::Second).tick(&started, None, 3_000_000_000).unwrap().content, "2s");
    let bar = Content::Progress { current: 1, maximum: 4, show_percent: true, show_values: false, show_rate: false };
    assert_eq!(bar.spawn(None, 0).unwrap().content, format!("{}{} 25.0%", "━".repeat(5), "┄".repeat(15)));
}

#[test]
fn the_empty_value_shows_nothing() {
    let coloured = Color::Red(Text(String::from("a"))).spawn(None, 0).unwrap();
    let slot = ().tick(&coloured, None, 0).unwrap();
    assert_eq!(slot.content, "");
    assert_eq!(slot.style, Styles::new());
    assert_eq!(Color::Blue(()).spawn(None, 0).unwrap().style.text_fg, Some(Palette16::Blue));
}

#[test]
fn decimal_deltas_start_from_what_the_node_holds() {
    let wide = Some(NumericValue::F64(2.5f64.to_bits()));
    let narrow = Some(NumericValue::F32(2.5f32.to_bits()));
    assert_eq!(decimal_prior(&None, true, true), Ok(None));
    assert_eq!(decimal_prior(&None, false, true), Ok(None));
    assert_eq!(decimal_prior(&None, true, false), Err(ElementError::MissingValue));
    assert_eq!(decimal_prior(&wide, true, false), Ok(Some(2.5f64.to_bits())));
    assert_eq!(decimal_prior(&wide, false, true), Err(ElementError::ContextMismatch));
    assert_eq!(decimal_prior(&narrow, false, false), Ok(Some(2.5f32.to_bits() as u64)));
    assert_eq!(decimal_prior(&narrow, true, true), Err(ElementError::ContextMismatch));
    assert_eq!(decimal_prior(&Some(NumericValue::U64(1)), true, true), Err(ElementError::ContextMismatch));
}

#[test]
fn groups_of_three_digits() {
    assert_eq!(Integer(999u32).spawn(None, 0).unwrap().content, "999");
    assert_eq!(Integer(1000u32).spawn(None, 0).unwrap().content, "1,000");
    assert_eq!(Integer(1_000_007u32).spawn(None, 0).unwrap().content, "1,000,007");
    assert_eq!(Integer(-1_020_300i64).spawn(None, 0).unwrap().content, "-1,020,300");
    assert_eq!(Integer(-999i16).spawn(None, 0).unwrap().content, "-999");
    assert_eq!(Integer(i8::MIN).spawn(None, 0).unwrap().content, "-128");
}
