use rio::{InputError, Rio};
use std::cell::Cell;
use std::io::{Cursor, Error, ErrorKind, Read};
use std::rc::Rc;

fn core_over(text: &str) -> Rio<Cursor<Vec<u8>>> {
    Rio::new(Cursor::new(text.as_bytes().to_vec()))
}

/// Delivers its bytes, fails once, and delivers the rest; counts the reads.
struct Flaky {
    before: Vec<u8>,
    failed: bool,
    after: Vec<u8>,
    reads: Rc<Cell<usize>>,
}

impl Read for Flaky {
    fn read(&mut self, buf: &mut [u8]) -> std::io::Result<usize> {
        self.reads.set(self.reads.get() + 1);
        if !self.before.is_empty() {
            buf[0] = self.before.remove(0);
            Ok(1)
        } else if !self.failed {
            self.failed = true;
            Err(Error::new(ErrorKind::Other, "broken"))
        } else if !self.after.is_empty() {
            buf[0] = self.after.remove(0);
            Ok(1)
        } else {
            Ok(0)
        }
    }
}

fn flaky(before: &str, after: &str) -> (Rio<Flaky>, Rc<Cell<usize>>) {
    let reads = Rc::new(Cell::new(0));
    let source = Flaky {
        before: before.as_bytes().to_vec(),
        failed: false,
        after: after.as_bytes().to_vec(),
        reads: reads.clone(),
    };
    (Rio::new(source), reads)
}

#[test]
fn read_n_needs_every_value() {
    let mut rio = core_over("1 2");
    assert_eq!(rio.read_n::<u32, u32>(3), None);
}

#[test]
fn read_n_or_default_fills_with_defaults() {
    let mut rio = core_over("1 2");
    assert_eq!(rio.read_n_or_default::<u32, u32>(3), vec![1, 2, 0]);
}

#[test]
fn read_n_reads_exactly_n() {
    let mut rio = core_over("1 2 3");
    assert_eq!(rio.read_n::<u32, u8>(2), Some(vec![1, 2]));
    assert_eq!(rio.read::<u32>(), Some(3));
}

#[test]
fn read_n_of_zero_reads_nothing() {
    let mut rio = core_over("x");
    assert_eq!(rio.read_n::<u32, usize>(0), Some(vec![]));
    assert!(rio.clear().is_none());
    assert_eq!(rio.getch(), Some(b'x'));
}

#[test]
fn read_n_stops_at_the_first_failure() {
    let mut rio = core_over("1 x 3");
    assert_eq!(rio.read_n::<u32, u64>(3), None);
    assert!(matches!(rio.clear(), Some(InputError::Extraction)));
    assert_eq!(rio.read::<String>(), Some(String::from("x")));
    assert_eq!(rio.read::<u32>(), Some(3));
}

#[test]
fn read_n_takes_any_unsigned_count() {
    assert_eq!(core_over("7 8").read_n::<u8, u8>(2u8), Some(vec![7, 8]));
    assert_eq!(core_over("7 8").read_n::<u8, u16>(2u16), Some(vec![7, 8]));
    assert_eq!(core_over("7 8").read_n::<u8, u32>(2u32), Some(vec![7, 8]));
    assert_eq!(core_over("7 8").read_n::<u8, u64>(2u64), Some(vec![7, 8]));
    assert_eq!(core_over("7 8").read_n::<u8, u128>(2u128), Some(vec![7, 8]));
    assert_eq!(core_over("7 8").read_n::<u8, usize>(2usize), Some(vec![7, 8]));
}

#[test]
fn read_n_reads_words() {
    let mut rio = core_over("a bc def");
    assert_eq!(
        rio.read_n::<String, u32>(3),
        Some(vec![String::from("a"), String::from("bc"), String::from("def")])
    );
}

#[test]
fn read_n_or_default_keeps_going_after_a_failure() {
    let mut rio = core_over("1 x 3");
    assert_eq!(rio.read_n_or_default::<u32, u32>(3), vec![1, 0, 0]);
    assert!(matches!(rio.clear(), Some(InputError::Extraction)));
    assert_eq!(rio.read::<String>(), Some(String::from("x")));
}

#[test]
fn read_n_or_default_of_zero_is_empty() {
    let mut rio = core_over("1");
    assert_eq!(rio.read_n_or_default::<u32, u8>(0), Vec::<u32>::new());
    assert_eq!(rio.read::<u32>(), Some(1));
}

#[test]
fn read_n_or_default_on_words() {
    let mut rio = core_over("a");
    assert_eq!(rio.read_n_or_default::<String, u32>(2), vec![String::from("a"), String::new()]);
}

#[test]
fn read_or_default_gives_the_value() {
    let mut rio = core_over("42 word");
    assert_eq!(rio.read_or_default::<u32>(), 42);
    assert_eq!(rio.read_or_default::<String>(), String::from("word"));
    assert!(rio.clear().is_none());
}

#[test]
fn read_or_default_gives_the_default() {
    let mut rio = core_over("x");
    assert_eq!(rio.read_or_default::<i64>(), 0);
    assert!(matches!(rio.clear(), Some(InputError::Extraction)));
    let mut rio = core_over("");
    assert_eq!(rio.read_or_default::<String>(), String::new());
    assert!(matches!(rio.clear(), Some(InputError::Extraction)));
}

#[test]
fn clear_without_error_changes_nothing() {
    let mut rio = core_over("5 6");
    assert!(rio.clear().is_none());
    assert!(rio.clear().is_none());
    assert_eq!(rio.read::<u32>(), Some(5));
    assert!(rio.clear().is_none());
    assert_eq!(rio.read::<u32>(), Some(6));
}

#[test]
fn clear_keeps_the_pending_byte_and_the_skip() {
    let mut rio = core_over("abcd");
    rio.ungetch(b'z');
    rio.ignore(2, None);
    assert!(rio.clear().is_none());
    assert_eq!(rio.getch(), Some(b'b'));
}

#[test]
fn clear_returns_the_error_once() {
    let mut rio = core_over("x");
    assert_eq!(rio.read::<u32>(), None);
    assert!(matches!(rio.clear(), Some(InputError::Extraction)));
    assert!(rio.clear().is_none());
}

#[test]
fn pushback_holds_one_byte() {
    let mut rio = core_over("c");
    rio.ungetch(b'a');
    rio.ungetch(b'b');
    assert_eq!(rio.getch(), Some(b'b'));
    assert_eq!(rio.getch(), Some(b'c'));
    assert_eq!(rio.getch(), None);
}

#[test]
fn pending_byte_comes_before_the_source() {
    let mut rio = core_over("bc");
    assert_eq!(rio.getch(), Some(b'b'));
    rio.ungetch(b'a');
    assert_eq!(rio.getch_impl(), Some(b'a'));
    assert_eq!(rio.getch_impl(), Some(b'c'));
}

#[test]
fn pending_byte_is_handed_out_by_a_blocked_reader() {
    let mut rio = core_over("a1");
    assert_eq!(rio.read::<u32>(), None);
    assert_eq!(rio.getch(), Some(b'a'));
    assert_eq!(rio.getch(), None);
    assert!(matches!(rio.clear(), Some(InputError::Extraction)));
    assert_eq!(rio.getch(), Some(b'1'));
}

#[test]
fn error_blocks_the_source_until_cleared() {
    let mut rio = core_over("x 5");
    assert_eq!(rio.read::<u32>(), None);
    assert_eq!(rio.read::<u32>(), None);
    assert_eq!(rio.read::<u32>(), None);
    assert!(matches!(rio.clear(), Some(InputError::Extraction)));
    assert_eq!(rio.read::<String>(), Some(String::from("x")));
    assert_eq!(rio.read::<u32>(), Some(5));
}

#[test]
fn end_of_input_is_for_good() {
    let mut rio = core_over("7");
    assert_eq!(rio.read::<u32>(), Some(7));
    assert_eq!(rio.read::<u32>(), None);
    assert!(matches!(rio.clear(), Some(InputError::Extraction)));
    assert_eq!(rio.read::<u32>(), None);
    assert_eq!(rio.readline(), None);
    assert_eq!(rio.getch(), None);
}

#[test]
fn ended_reader_asks_the_source_no_more() {
    let (mut rio, reads) = flaky("", "");
    assert_eq!(rio.getch(), None);
    assert!(matches!(rio.clear(), Some(InputError::IO(_))));
    assert_eq!(rio.getch(), None);
    let asked = reads.get();
    assert_eq!(rio.getch(), None);
    assert_eq!(rio.read::<u32>(), None);
    rio.clear();
    assert_eq!(rio.readline(), None);
    assert_eq!(reads.get(), asked);
}

#[test]
fn failure_of_the_source_is_kept() {
    let (mut rio, _) = flaky("ab", "cd");
    assert_eq!(rio.readline(), Some(String::from("ab")));
    match rio.clear() {
        Some(InputError::IO(error)) => assert_eq!(error.kind(), ErrorKind::Other),
        _ => panic!("the failure of the source was not kept"),
    }
    assert_eq!(rio.readline(), Some(String::from("cd")));
}

#[test]
fn failed_source_is_not_asked_until_cleared() {
    let (mut rio, reads) = flaky("1", "2");
    assert_eq!(rio.getch(), Some(b'1'));
    assert_eq!(rio.getch(), None);
    let asked = reads.get();
    assert_eq!(rio.getch(), None);
    assert_eq!(rio.getch_impl(), None);
    assert_eq!(rio.readline(), None);
    assert_eq!(reads.get(), asked);
    assert!(matches!(rio.clear(), Some(InputError::IO(_))));
    assert_eq!(rio.getch(), Some(b'2'));
}

#[test]
fn read_puts_extraction_in_place_of_the_failure() {
    let (mut rio, _) = flaky("", "5");
    assert_eq!(rio.read::<u32>(), None);
    assert!(matches!(rio.clear(), Some(InputError::Extraction)));
    assert_eq!(rio.read::<u32>(), Some(5));
}

#[test]
fn value_before_a_failure_is_read() {
    let (mut rio, _) = flaky("12", "3");
    assert_eq!(rio.read::<u32>(), Some(12));
    assert!(matches!(rio.clear(), Some(InputError::IO(_))));
    assert_eq!(rio.read::<u32>(), Some(3));
}

#[test]
fn ignore_discards_bytes() {
    let mut rio = core_over("abcdef");
    rio.ignore(3, None);
    assert_eq!(rio.read::<String>(), Some(String::from("def")));
}

#[test]
fn ignore_stops_after_the_stop_byte() {
    let mut rio = core_over("junk\nrest");
    rio.ignore(10, Some(b'\n'));
    assert_eq!(rio.read::<String>(), Some(String::from("rest")));
}

#[test]
fn ignore_stops_at_the_first_stop_byte() {
    let mut rio = core_over("a,b,c");
    rio.ignore(100, Some(b','));
    assert_eq!(rio.getch(), Some(b'b'));
    assert_eq!(rio.getch(), Some(b','));
}

#[test]
fn ignore_is_used_once() {
    let mut rio = core_over("abcdef");
    rio.ignore(2, None);
    assert_eq!(rio.getch(), Some(b'c'));
    assert_eq!(rio.getch(), Some(b'd'));
}

#[test]
fn last_ignore_wins() {
    let mut rio = core_over("abc");
    rio.ignore(100, None);
    rio.ignore(1, None);
    assert_eq!(rio.read::<String>(), Some(String::from("bc")));
}

#[test]
fn ignore_of_nothing_changes_nothing() {
    let mut rio = core_over("abc");
    rio.ignore(0, Some(b'a'));
    assert_eq!(rio.getch(), Some(b'a'));
}

#[test]
fn ignore_counts_the_pending_byte() {
    let mut rio = core_over("bc");
    rio.ungetch(b'a');
    rio.ignore(1, None);
    assert_eq!(rio.getch(), Some(b'b'));
}

#[test]
fn ignore_beyond_the_end_ends_the_reader() {
    let mut rio = core_over("abc");
    rio.ignore(10, Some(b'z'));
    assert_eq!(rio.getch(), None);
    rio.ungetch(b'q');
    assert_eq!(rio.getch(), Some(b'q'));
    assert_eq!(rio.getch(), None);
}

#[test]
fn ignore_applies_to_lines() {
    let mut rio = core_over("skip this\nkeep this\n");
    rio.ignore(u32::MAX, Some(b'\n'));
    assert_eq!(rio.readline(), Some(String::from("keep this")));
}

#[test]
fn mixed_reads_share_one_cursor() {
    let mut rio = core_over("4 2 hello\nrest of it\n-17");
    assert_eq!(rio.read::<u32>(), Some(4));
    assert_eq!(rio.read::<u8>(), Some(2));
    assert_eq!(rio.read::<String>(), Some(String::from("hello")));
    assert_eq!(rio.readline(), Some(String::new()));
    assert_eq!(rio.readline(), Some(String::from("rest of it")));
    assert_eq!(rio.read::<i64>(), Some(-17));
    assert_eq!(rio.read::<i64>(), None);
}
