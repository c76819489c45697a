use fish_in_a_jit::dmo::{Context, Dmo, Operator, BUFFER_SIZE};
use fish_in_a_jit::ieee754::greater;
use fish_in_a_jit::text::{chars_of, text_of};

/// The cell at which a sprite is drawn, computed in 32-bit floats.
fn total_offset(offset: u8, time: f32, speed: f32) -> usize {
    ((offset as f32 + time * speed) % (BUFFER_SIZE as f32)) as usize
}

fn buffer_text(context: &Context) -> String {
    context.buffer.iter().collect()
}

fn context_with(sprites: &[&str]) -> Context {
    let mut context = Context::new();
    for s in sprites {
        context.sprites.push(s.to_string());
    }
    context
}

#[test]
fn draw_and_print() {
    let mut context = context_with(&[" ><(([°> "]);
    let time = f32::from_bits(context.time);
    context.impl_draw(0, total_offset(2, time, 1.5));
    let text = context.impl_print();
    assert_eq!(text, "     __ ><(([°> _______________________________________\r");
}

#[test]
fn clear_and_print() {
    let mut context = Context::new();
    context.impl_clear(0x5f);
    assert_eq!(context.impl_print(), format!("     {}\r", "_".repeat(50)));
    assert_eq!(context.buffer, vec!['_'; 50]);
}

#[test]
fn exit_compares_strictly() {
    let mut context = Context::new();
    context.time = 0.5f32.to_bits();
    context.impl_exit(1.0f32.to_bits());
    assert!(context.is_running);
    context.time = 1.0f32.to_bits();
    context.impl_exit(1.0f32.to_bits());
    assert!(context.is_running);
    context.time = 1.5f32.to_bits();
    context.impl_exit(1.0f32.to_bits());
    assert!(!context.is_running);
}

#[test]
fn exit_never_starts_the_loop_again() {
    let mut context = Context::new();
    context.time = 3.0f32.to_bits();
    context.impl_exit(2.0f32.to_bits());
    assert!(!context.is_running);
    context.time = 0.0f32.to_bits();
    context.impl_exit(2.0f32.to_bits());
    assert!(!context.is_running);
    context.impl_clear(0x20);
    assert!(!context.is_running);
    context.sprites.push("x".to_string());
    context.impl_draw(0, 0);
    assert!(!context.is_running);
    let _ = context.impl_print();
    assert!(!context.is_running);
}

#[test]
fn exit_changes_nothing_else() {
    let mut context = context_with(&["ab"]);
    context.time = 9.0f32.to_bits();
    context.impl_draw(0, 3);
    let before = buffer_text(&context);
    context.impl_exit(1.0f32.to_bits());
    assert_eq!(buffer_text(&context), before);
    assert_eq!(context.sprites, vec!["ab".to_string()]);
    assert_eq!(context.time, 9.0f32.to_bits());
}

#[test]
fn exit_with_nan_keeps_running() {
    let mut context = Context::new();
    context.time = f32::NAN.to_bits();
    context.impl_exit(0.0f32.to_bits());
    assert!(context.is_running);
    context.time = f32::INFINITY.to_bits();
    context.impl_exit(f32::NAN.to_bits());
    assert!(context.is_running);
    context.impl_exit(f32::MAX.to_bits());
    assert!(!context.is_running);
}

#[test]
fn greater_is_the_float_comparison() {
    let samples: Vec<f32> = vec![
        0.0,
        -0.0,
        1.0,
        -1.0,
        0.5,
        1.5,
        2.0,
        -2.0,
        f32::MIN_POSITIVE,
        -f32::MIN_POSITIVE,
        f32::from_bits(1),
        f32::from_bits(0x8000_0001),
        f32::MAX,
        f32::MIN,
        f32::INFINITY,
        f32::NEG_INFINITY,
        f32::NAN,
        f32::from_bits(0xffc0_0001),
        f32::from_bits(0x7f80_0001),
        f32::EPSILON,
        1.0e-40,
        -1.0e-40,
        123456.79,
        -0.1,
    ];
    for a in &samples {
        for b in &samples {
            assert_eq!(greater(a.to_bits(), b.to_bits()), a > b, "{} > {}", a, b);
        }
    }
}

#[test]
fn draw_out_of_range_is_ignored() {
    let mut context = context_with(&["fish"]);
    context.impl_draw(0, 7);
    let before = context.buffer.clone();
    context.impl_draw(5, total_offset(0, 0.0, 0.0));
    assert_eq!(context.buffer, before);
    context.impl_draw(1, 0);
    assert_eq!(context.buffer, before);
    context.impl_draw(255, 49);
    assert_eq!(context.buffer, before);
    assert_eq!(context.sprites, vec!["fish".to_string()]);
}

#[test]
fn draw_without_sprites_is_ignored() {
    let mut context = Context::new();
    context.impl_draw(0, 0);
    assert_eq!(context.buffer, vec!['_'; 50]);
}

#[test]
fn draw_wraps_round() {
    let mut context = context_with(&["abcde"]);
    context.impl_draw(0, 48);
    assert_eq!(context.buffer.len(), 50);
    let sprite: Vec<char> = "abcde".chars().collect();
    for i in 0..5 {
        assert_eq!(context.buffer[(48 + i) % 50], sprite[i]);
    }
    assert_eq!(buffer_text(&context), format!("cde{}ab", "_".repeat(45)));
}

#[test]
fn draw_takes_the_offset_modulo_the_buffer() {
    let mut a = context_with(&["abc"]);
    let mut b = context_with(&["abc"]);
    a.impl_draw(0, 49);
    b.impl_draw(0, 50 * 7 + 49);
    assert_eq!(a.buffer, b.buffer);
    let mut c = context_with(&["abc"]);
    c.impl_draw(0, usize::MAX);
    let at = usize::MAX % 50;
    assert_eq!(c.buffer[at], 'a');
    assert_eq!(c.buffer[(at + 1) % 50], 'b');
    assert_eq!(c.buffer[(at + 2) % 50], 'c');
}

#[test]
fn draw_of_a_long_sprite_keeps_the_last_writes() {
    let sprite: String = (0..60u8).map(|i| (b'0' + i) as char).collect();
    let chars: Vec<char> = sprite.chars().collect();
    let mut context = context_with(&[sprite.as_str()]);
    context.impl_draw(0, 45);
    for cell in 0..50usize {
        // character i goes to cell (45 + i) % 50; the last one to get there stays
        let mut last = None;
        for i in 0..60usize {
            if (45 + i) % 50 == cell {
                last = Some(chars[i]);
            }
        }
        assert_eq!(Some(context.buffer[cell]), last);
    }
    // the first ten characters were overwritten by the last ten
    assert_eq!(context.buffer[45], chars[50]);
}

#[test]
fn draw_moves_with_time() {
    let mut context = context_with(&["><>"]);
    context.time = 4.0f32.to_bits();
    let at = total_offset(2, f32::from_bits(context.time), 1.5);
    assert_eq!(at, 8);
    context.impl_draw(0, at);
    assert_eq!(buffer_text(&context), format!("{}><>{}", "_".repeat(8), "_".repeat(39)));
}

#[test]
fn draw_empty_sprite_changes_nothing() {
    let mut context = context_with(&[""]);
    context.impl_draw(0, 13);
    assert_eq!(context.buffer, vec!['_'; 50]);
}

#[test]
fn clear_fills_the_buffer() {
    let mut context = context_with(&["abc"]);
    context.impl_draw(0, 10);
    context.impl_clear(0xb0);
    assert_eq!(context.buffer, vec!['°'; 50]);
    context.impl_clear(0x1f41f);
    assert_eq!(context.buffer, vec!['\u{1f41f}'; 50]);
    assert_eq!(context.sprites, vec!["abc".to_string()]);
    assert!(context.is_running);
    assert_eq!(context.time, 0);
}

#[test]
fn clear_twice_is_clear_once() {
    let mut once = context_with(&["abc"]);
    once.impl_draw(0, 3);
    once.impl_clear(0x2e);
    let mut twice = context_with(&["abc"]);
    twice.impl_draw(0, 3);
    twice.impl_clear(0x2e);
    twice.impl_clear(0x2e);
    assert_eq!(once.buffer, twice.buffer);
    assert_eq!(twice.buffer, vec!['.'; 50]);
}

#[test]
fn print_frames_the_buffer() {
    let mut context = context_with(&["°"]);
    context.impl_draw(0, 49);
    let text = context.impl_print();
    assert_eq!(text.chars().count(), 5 + 50 + 1);
    assert!(text.starts_with("     _"));
    assert!(text.ends_with("_°\r"));
    assert!(!text.contains('\n'));
}

#[test]
fn fresh_context() {
    let context = Context::new();
    assert!(context.sprites.is_empty());
    assert_eq!(context.buffer, vec!['_'; BUFFER_SIZE]);
    assert_eq!(BUFFER_SIZE, 50);
    assert!(context.is_running);
    assert_eq!(f32::from_bits(context.time), 0.0);
    let other = Context::default();
    assert_eq!(other.buffer, context.buffer);
    assert_eq!(other.is_running, context.is_running);
    assert_eq!(other.time, context.time);
}

#[test]
fn text_and_characters() {
    assert_eq!(chars_of(" ><(([°> "), " ><(([°> ".chars().collect::<Vec<char>>());
    assert_eq!(chars_of(""), Vec::<char>::new());
    assert_eq!(text_of(&vec!['°', 'a', '\u{1f41f}']), "°a\u{1f41f}");
    assert_eq!(text_of(&Vec::new()), "");
    assert_eq!(text_of(&chars_of("fish in a jit")), "fish in a jit");
}

#[test]
fn dmo_accessors() {
    let mut context = Context::new();
    context.sprites.push("x".to_string());
    let mut dmo = Dmo::new(context, vec![Operator::Print, Operator::NOOP]);
    assert_eq!(dmo.get_sprites(), &vec!["x".to_string()]);
    assert_eq!(dmo.get_operators(), &vec![Operator::Print, Operator::NOOP]);
    assert!(dmo.get_is_running());
    assert_eq!(dmo.get_time(), 0);
    dmo.set_time(0.25f32.to_bits());
    assert_eq!(f32::from_bits(dmo.get_time()), 0.25);
    assert_eq!(dmo.get_context().time, 0.25f32.to_bits());
    dmo.get_context_mut().impl_exit(0.0f32.to_bits());
    assert!(!dmo.get_is_running());
    assert_eq!(dmo.get_jit_fn().get_size(), 0);
}

#[test]
fn default_dmo_is_empty() {
    let dmo = Dmo::default();
    assert!(dmo.get_sprites().is_empty());
    assert!(dmo.get_operators().is_empty());
    assert!(dmo.get_is_running());
    assert_eq!(dmo.get_time(), 0);
    assert_eq!(dmo.get_context().buffer, vec!['_'; 50]);
    assert_eq!(dmo.get_jit_fn().as_bytes(), &Vec::<u8>::new());
}
