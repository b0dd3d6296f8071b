use attendance_cli::repository::{DataHome, FileRepository, frame_line, join, split_lines};
use attendance_cli::error::Error;

#[test]
fn the_log_lives_under_the_data_home() {
    let repository = FileRepository::new(DataHome::Value("/data".to_string()), Some("/home/me".to_string())).unwrap();
    assert_eq!(repository.directory_path(), "/data/attendance-cli");
    assert_eq!(repository.path(), "/data/attendance-cli/attendance.log");
    let repository = FileRepository::new(DataHome::Value("/data/".to_string()), None).unwrap();
    assert_eq!(repository.path(), "/data/attendance-cli/attendance.log");
}

#[test]
fn the_log_falls_back_to_the_home_directory() {
    let repository = FileRepository::new(DataHome::NotPresent, Some("/home/me".to_string())).unwrap();
    assert_eq!(repository.path(), "/home/me/.local/share/attendance-cli/attendance.log");
    let error = FileRepository::new(DataHome::NotPresent, None).unwrap_err();
    assert_eq!(error, Error::Io("Failed to construct repository file directory".to_string()));
    let error = FileRepository::new(DataHome::NotUnicode("bad".to_string()), None).unwrap_err();
    assert_eq!(error, Error::Io("Invalid `XDG_DATA_HOME` value: bad".to_string()));
}

#[test]
fn joins_paths() {
    assert_eq!(join("", "a"), "a");
    assert_eq!(join("x", "a"), "x/a");
    assert_eq!(join("x/", "a"), "x/a");
}

#[test]
fn reads_records_line_by_line() {
    let input = b"{\"a\":1}\n{\"b\":2}\r\nlast".to_vec();
    let lines = split_lines(&input);
    assert_eq!(lines, vec![b"{\"a\":1}".to_vec(), b"{\"b\":2}".to_vec(), b"last".to_vec()]);
    assert_eq!(split_lines(&b"".to_vec()), Vec::<Vec<u8>>::new());
    assert_eq!(split_lines(&b"\n".to_vec()), vec![Vec::<u8>::new()]);
    assert_eq!(split_lines(&b"a\r".to_vec()), vec![b"a\r".to_vec()]);
}

#[test]
fn reads_back_what_was_written() {
    let mut file = Vec::new();
    file.extend(frame_line(b"{\"id\":1}".to_vec()));
    file.extend(frame_line(b"{\"id\":2}".to_vec()));
    assert_eq!(split_lines(&file), vec![b"{\"id\":1}".to_vec(), b"{\"id\":2}".to_vec()]);
}
