use snek::cobra::runtime as cobra_rt;
use snek::compiler_09::runtime as rt09;
use snek::egg_eater;
use snek::forest_flame::{self, ErrCode};
use snek::memory::Memory;
use std::collections::HashSet;

#[test]
fn cobra_runtime_inputs_and_outputs() {
    assert_eq!(cobra_rt::parse_input("true"), 3);
    assert_eq!(cobra_rt::parse_input("false"), 1);
    assert_eq!(cobra_rt::parse_input(""), 1);
    assert_eq!(cobra_rt::parse_input("21"), 42);
    assert_eq!(cobra_rt::parse_input("-1"), u64::MAX - 1);
    assert_eq!(cobra_rt::check_input("4611686018427387904"), Err(cobra_rt::InputError::InvalidArgument));
    assert_eq!(cobra_rt::check_input("abc"), Err(cobra_rt::InputError::InvalidArgument));
    assert_eq!(cobra_rt::check_input("-4611686018427387904"), Ok(()));
    assert_eq!(cobra_rt::format_output(3), "true");
    assert_eq!(cobra_rt::format_output(1), "false");
    assert_eq!(cobra_rt::format_output(42), "21");
    assert_eq!(cobra_rt::format_output(-4), "-2");
    assert_eq!(cobra_rt::error_message(0), "invalid argument");
    assert_eq!(cobra_rt::error_message(1), "overflow");
    assert_eq!(cobra_rt::error_message(9), "an error ocurred 9");
}

#[test]
fn runtime_09_inputs_and_outputs() {
    assert_eq!(rt09::parse_input("true"), Ok(3));
    assert_eq!(rt09::parse_input("false"), Ok(1));
    assert_eq!(rt09::parse_input("5"), Ok(10));
    assert_eq!(rt09::parse_input("-5"), Ok(1));
    assert_eq!(rt09::parse_input("4611686018427387904"), Err(rt09::InputError::InvalidArgument));
    assert_eq!(rt09::print_value(10), Ok("5".to_string()));
    assert_eq!(rt09::print_value(u64::MAX - 1), Ok("-1".to_string()));
    assert_eq!(rt09::print_value(3), Ok("true".to_string()));
    assert_eq!(rt09::print_value(1), Ok("false".to_string()));
    assert_eq!(rt09::print_value(5), Err("Unknown: 5".to_string()));
    assert_eq!(rt09::error_message(7), "an error ocurred 7\ninvalid argument");
    assert_eq!(rt09::error_message(5), "an error ocurred 5\noverflow!");
    assert_eq!(rt09::error_message(2), "an error ocurred 2");
}

#[test]
fn egg_eater_runtime() {
    assert_eq!(egg_eater::parse_input("true"), 7);
    assert_eq!(egg_eater::parse_input(""), 3);
    assert_eq!(egg_eater::parse_input("3"), 6);
    assert_eq!(egg_eater::check_input("4611686018427387903"), Ok(()));
    assert_eq!(egg_eater::check_input("4611686018427387904"), Err(egg_eater::InputError::InvalidArgument));
    assert_eq!(egg_eater::error_message(3), "Runtime error: index is out-of-bound");
    assert_eq!(egg_eater::error_message(8), "Runtime error ocurred 8");
    // A tuple of (1, true) at byte address 64: its length word (16), then
    // the elements.
    let mem = Memory { start: 64, words: vec![16, 2, 7] };
    assert_eq!(egg_eater::get_real_content(4, &mem), "2");
    assert_eq!(egg_eater::get_real_content(3, &mem), "false");
    assert_eq!(egg_eater::get_real_content((64 << 2) + 1, &mem), "(tuple 1 true)");
}

#[test]
fn forest_flame_runtime() {
    assert_eq!(ErrCode::InvalidArgument.code(), 1);
    assert_eq!(ErrCode::OutOfMemory.code(), 5);
    assert_eq!(forest_flame::error_message(4), "vector size must be non-negative");
    assert_eq!(forest_flame::error_message(6), "an error ocurred 6");
    assert_eq!(forest_flame::exit_status(5), 5);
    assert_eq!(forest_flame::parse_input("true"), 7);
    assert_eq!(forest_flame::parse_input("-2"), u64::MAX - 3);
    assert_eq!(forest_flame::check_input("x"), Err(forest_flame::InputError::NotANumber));
    assert_eq!(forest_flame::parse_heap_size("10000"), 10000);
    assert_eq!(forest_flame::check_heap_size("-1"), Err(forest_flame::InputError::NotANumber));
    assert_eq!(forest_flame::check_heap_size(""), Err(forest_flame::InputError::NotANumber));
    assert_eq!(forest_flame::check_heap_size("1e3"), Err(forest_flame::InputError::NotANumber));
    assert_eq!(forest_flame::check_heap_size("10000"), Ok(()));
    assert_eq!(forest_flame::check_input("false"), Ok(()));
    // A vector [1, [..itself..]] at byte address 128: gc word, size 2, 1, self.
    let mem = Memory { start: 128, words: vec![0, 2, 2, 129] };
    let mut seen = HashSet::new();
    assert_eq!(forest_flame::snek_str(129, &mut seen, &mem), "[1, [...]]");
    assert!(seen.is_empty());
    assert_eq!(forest_flame::snek_str(1, &mut seen, &mem), "nil");
    assert_eq!(forest_flame::snek_str(8, &mut seen, &mem), "4");
}

#[test]
fn runtimes_print_back_their_input() {
    let mem = Memory { start: 8, words: vec![0, 0] };
    let v = forest_flame::parse_input("-42");
    assert_eq!(forest_flame::snek_str(v, &mut HashSet::new(), &mem), "-42");
    let v = egg_eater::parse_input("17");
    assert_eq!(egg_eater::get_real_content(v as i64, &mem), "17");
    let v = cobra_rt::parse_input("-4611686018427387904");
    assert_eq!(cobra_rt::format_output(v as i64), "-4611686018427387904");
    let v = forest_flame::parse_input("true");
    assert_eq!(forest_flame::snek_str(v, &mut HashSet::new(), &mem), "true");
}

#[test]
fn runtime_input_error_messages() {
    assert_eq!(egg_eater::check_input("x").unwrap_err().message(), "invalid argument");
    assert_eq!(cobra_rt::check_input("x").unwrap_err().message(), "invalid argument");
}

#[test]
fn egg_eater_printing_checked() {
    let mem = Memory { start: 64, words: vec![16, 2, 7] };
    let tuple = (64 << 2) + 1;
    assert_eq!(egg_eater::real_content(4, &mem), Some("2".to_string()));
    assert_eq!(egg_eater::real_content(tuple, &mem), Some("(tuple 1 true)".to_string()));
    assert_eq!(egg_eater::real_content((200 << 2) + 1, &mem), None);
    // A tuple that holds itself never prints.
    let cyclic = Memory { start: 64, words: vec![8, (64 << 2) + 1] };
    assert_eq!(egg_eater::real_content(tuple, &cyclic), None);
    // Nested as deep as the memory allows: each tuple holds the next.
    let nested = Memory { start: 64, words: vec![8, (80 << 2) + 1, 8, (96 << 2) + 1, 8, 4] };
    assert_eq!(egg_eater::real_content(tuple, &nested), Some("(tuple (tuple (tuple 2)))".to_string()));
}

#[test]
fn forest_flame_printing_checked() {
    let mem = Memory { start: 128, words: vec![0, 2, 2, 129] };
    let mut seen = HashSet::new();
    assert_eq!(forest_flame::try_snek_str(129, &mut seen, &mem), Some("[1, [...]]".to_string()));
    assert!(seen.is_empty());
    assert_eq!(forest_flame::try_snek_str(1001, &mut seen, &mem), None);
    assert_eq!(forest_flame::try_snek_str(8, &mut seen, &mem), Some("4".to_string()));
    // A vector whose element lies beyond the memory does not print.
    let short = Memory { start: 128, words: vec![0, 3, 2, 4] };
    assert_eq!(forest_flame::try_snek_str(129, &mut seen, &short), None);
    assert!(seen.is_empty());
}
