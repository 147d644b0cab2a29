use deet::linked_list::{LinkedList, Node};
use deet::stack::{is_entry_function, Frame, StackWalker, WalkStep, MAX_FRAMES};
use deet::wc::{count_for_lines, count_for_words, count_words_in_line};

#[test]
fn walk_follows_saved_frames_to_main() {
    // Frames: f (fp 0x7ff0) called from g (fp 0x7ff8... ) called from main.
    let mut w = StackWalker::new(0x401010, 0x7f00);
    assert_eq!(w.frame(), Frame { pc: 0x401010, fp: 0x7f00 });
    assert_eq!(w.step(Some("f")), WalkStep::Read(0x7f08, 0x7f00));
    w.enter_caller(0x401050, 0x7f40);
    assert_eq!(w.step(None), WalkStep::Read(0x7f48, 0x7f40));
    w.enter_caller(0x401090, 0x7f80);
    assert_eq!(w.step(Some("main")), WalkStep::Done);
    assert_eq!(w.frame().pc, 0x401090);
}

#[test]
fn walk_gives_up_on_endless_chain() {
    let mut w = StackWalker::new(0x1000, 0x2000);
    let mut steps = 0;
    loop {
        match w.step(Some("loop_forever")) {
            WalkStep::Read(ret, saved) => {
                assert_eq!(ret, 0x2008);
                assert_eq!(saved, 0x2000);
                w.enter_caller(0x1000, 0x2000);
                steps += 1;
            }
            WalkStep::TooDeep => break,
            other => panic!("unexpected step {:?}", other),
        }
    }
    assert_eq!(steps, MAX_FRAMES - 1);
}

#[test]
fn walk_refuses_frame_pointer_at_top_of_memory() {
    let w = StackWalker::new(0x1000, usize::MAX - 3);
    assert_eq!(w.step(Some("f")), WalkStep::Unreadable);
}

#[test]
fn entry_function_is_main() {
    assert!(is_entry_function("main"));
    assert!(!is_entry_function("mainly"));
    assert!(!is_entry_function("MAIN"));
    assert!(!is_entry_function(""));
}

#[test]
fn line_and_word_counts() {
    let lines = vec![
        "hello world".to_string(),
        "".to_string(),
        "  one\ttwo  three ".to_string(),
        "\u{3000}wide\u{3000}space".to_string(),
    ];
    assert_eq!(count_for_lines(&lines), 4);
    assert_eq!(count_for_words(&lines), Some(7));
    assert_eq!(count_words_in_line("   "), 0);
    assert_eq!(count_words_in_line("a"), 1);
    assert_eq!(count_for_words(&Vec::new()), Some(0));
}

#[test]
fn list_push_pop() {
    let mut list: LinkedList<String> = LinkedList::new();
    assert!(list.is_empty());
    assert_eq!(list.get_size(), 0);
    for i in 1..12 {
        list.push_front(i.to_string());
    }
    assert_eq!(list.get_size(), 11);
    assert!(!list.is_empty());
    assert_eq!(list.pop_front(), Some("11".to_string()));
    assert_eq!(list.get_size(), 10);
    let mut it = list.iter();
    assert_eq!(it.next(), Some(&"10".to_string()));
    assert_eq!(it.next(), Some(&"9".to_string()));
    let mut all = Vec::new();
    let mut owned = list.into_iter();
    while let Some(v) = owned.next() {
        all.push(v);
    }
    assert_eq!(all, vec!["10", "9", "8", "7", "6", "5", "4", "3", "2", "1"]);
}

#[test]
fn pop_from_empty_list() {
    let mut list: LinkedList<u32> = LinkedList::new();
    assert_eq!(list.pop_front(), None);
    list.push_front(1);
    assert_eq!(list.pop_front(), Some(1));
    assert_eq!(list.pop_front(), None);
    assert!(list.is_empty());
}

#[test]
fn node_holds_value_and_link() {
    let tail = Node::new(2, None);
    let head = Node::new(1, Some(Box::new(tail)));
    assert_eq!(head.value, 1);
    assert_eq!(head.next.as_ref().map(|n| n.value), Some(2));
}
