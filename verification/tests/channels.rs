use rebf::Channels;

#[test]
fn new_channels_have_written_nothing() {
    let io = Channels::new(vec![1, 2, 3]);

    assert_eq!(io.output(), &Vec::<u8>::new());
    assert_eq!(io.diagnostics(), "");
}

#[test]
fn take_hands_out_the_input_in_order() {
    let mut io = Channels::new(vec![1, 2, 3]);

    assert_eq!(io.take(), Some(1));
    assert_eq!(io.take(), Some(2));
    assert_eq!(io.take(), Some(3));
    assert_eq!(io.take(), None);
    assert_eq!(io.take(), None);
}

#[test]
fn take_of_empty_input_is_none() {
    let mut io = Channels::new(Vec::new());

    assert_eq!(io.take(), None);
}

#[test]
fn write_appends_to_the_output() {
    let mut io = Channels::new(vec![9]);

    io.write(72);
    io.write(105);
    io.write(0);

    assert_eq!(io.output(), &vec![72u8, 105, 0]);
    assert_eq!(io.diagnostics(), "");
    assert_eq!(io.take(), Some(9));
}

#[test]
fn report_appends_to_the_diagnostics() {
    let mut io = Channels::new(Vec::new());

    io.report("one\n");
    io.report("");
    io.report("two");

    assert_eq!(io.diagnostics(), "one\ntwo");
    assert_eq!(io.output(), &Vec::<u8>::new());
}

#[test]
fn feed_adds_input_behind_what_waits() {
    let mut io = Channels::new(vec![1]);

    assert!(io.has_input());
    io.feed(2);

    assert_eq!(io.take(), Some(1));
    assert_eq!(io.take(), Some(2));
    assert!(!io.has_input());
    assert_eq!(io.take(), None);

    io.feed(3);
    assert!(io.has_input());
    assert_eq!(io.take(), Some(3));
}

#[test]
fn drain_output_hands_out_the_bytes_once() {
    let mut io = Channels::new(vec![4]);
    io.write(1);
    io.write(2);
    io.report("x");

    assert_eq!(io.drain_output(), vec![1u8, 2]);
    assert_eq!(io.drain_output(), Vec::<u8>::new());

    io.write(3);
    assert_eq!(io.output(), &vec![3u8]);
    assert_eq!(io.diagnostics(), "x");
    assert_eq!(io.take(), Some(4));
}

#[test]
fn drain_diagnostics_hands_out_the_text_once() {
    let mut io = Channels::new(Vec::new());
    io.report("one");
    io.write(7);

    assert_eq!(io.drain_diagnostics(), "one");
    assert_eq!(io.drain_diagnostics(), "");
    assert_eq!(io.output(), &vec![7u8]);
}
