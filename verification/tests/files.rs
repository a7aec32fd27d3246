use snowflake::files::{
    append_read, find_step, Configuration, FileLoad, FindStep, LoadAction, OpenOutcome, PATH_CONFIG,
    PATH_FALLBACK_KERNEL,
};

#[test]
fn search_goes_on_past_missing_files() {
    assert_eq!(find_step(0, OpenOutcome::NotFound), FindStep::Next);
    assert_eq!(find_step(2, OpenOutcome::Opened), FindStep::Found(2));
    assert_eq!(find_step(1, OpenOutcome::Failed(7)), FindStep::Fail(7));
}

#[test]
fn reads_are_appended_until_nothing_comes() {
    let mut data: Vec<u8> = vec![1];
    let buf = [5u8, 6, 7, 8];
    assert_eq!(append_read(&mut data, 1, &buf, 3), Some(4));
    assert_eq!(data, vec![1, 5, 6, 7]);
    assert_eq!(append_read(&mut data, 4, &buf, 0), None);
    assert_eq!(data, vec![1, 5, 6, 7]);
}

#[test]
fn configuration_falls_back_to_the_default_kernel() {
    let expected: Vec<u16> = "boot2snow\\kernel.bin\0".encode_utf16().collect();
    assert_eq!(PATH_FALLBACK_KERNEL.to_vec(), expected);
    assert_eq!(Configuration::from_file(OpenOutcome::Opened).unwrap().kernel, expected);
    assert_eq!(Configuration::from_file(OpenOutcome::NotFound).unwrap().kernel, expected);
    assert_eq!(Configuration::from_file(OpenOutcome::Failed(3)), Err(3));
}

#[test]
fn configuration_path() {
    let expected: Vec<u16> = "boot2snow\\boot2snow.conf\0".encode_utf16().collect();
    assert_eq!(PATH_CONFIG.to_vec(), expected);
}

#[test]
fn file_load_searches_then_reads_to_the_end() {
    let (mut l, a) = FileLoad::new(3);
    assert_eq!(a, LoadAction::Open(0));
    assert_eq!(l.on_open(OpenOutcome::NotFound), LoadAction::Open(1));
    assert_eq!(l.on_open(OpenOutcome::Opened), LoadAction::Read);
    assert_eq!(l.on_read(Ok(2), &[4, 5, 6]), LoadAction::Read);
    assert_eq!(l.on_read(Ok(1), &[7]), LoadAction::Read);
    assert_eq!(l.on_read(Ok(0), &[8]), LoadAction::Done);
    assert_eq!(l.data(), &vec![4, 5, 7]);
}

#[test]
fn file_load_missing_and_failing() {
    let (_, a) = FileLoad::new(0);
    assert_eq!(a, LoadAction::Missing);
    let (mut l, _) = FileLoad::new(2);
    assert_eq!(l.on_open(OpenOutcome::NotFound), LoadAction::Open(1));
    assert_eq!(l.on_open(OpenOutcome::NotFound), LoadAction::Missing);
    let (mut m, _) = FileLoad::new(2);
    assert_eq!(m.on_open(OpenOutcome::Failed(5)), LoadAction::Fail(5));
    let (mut r, _) = FileLoad::new(1);
    assert_eq!(r.on_open(OpenOutcome::Opened), LoadAction::Read);
    assert_eq!(r.on_read(Ok(1), &[1]), LoadAction::Read);
    assert_eq!(r.on_read(Err(9), &[]), LoadAction::Fail(9));
    assert_eq!(r.data(), &vec![1]);
}
