use attendance_cli::cli::log::{Arguments, HalfDay, Mode, RecordType};
use attendance_cli::model;

fn args(record_type: RecordType) -> Arguments {
    Arguments::new(record_type, None, None, None, Mode::Create)
}

fn mode_args(mode: Mode) -> Arguments {
    Arguments::new(RecordType::Office, None, None, None, mode)
}

#[test]
fn maps_office() {
    let args = args(RecordType::Office);
    assert_eq!(args.record_type(), model::RecordType::Office)
}

#[test]
fn maps_working_from_home() {
    let args = args(RecordType::WorkingFromHome);
    assert_eq!(args.record_type(), model::RecordType::WorkingFromHome)
}

#[test]
fn maps_annual_leave() {
    let args = args(RecordType::AnnualLeave);
    assert_eq!(args.record_type(), model::RecordType::AnnualLeave)
}

#[test]
fn maps_annual_sick() {
    let args = args(RecordType::Sick);
    assert_eq!(args.record_type(), model::RecordType::Sick)
}

#[test]
fn maps_annual_other() {
    let args = args(RecordType::Other);
    assert_eq!(args.record_type(), model::RecordType::Other)
}

#[test]
fn maps_create() {
    let args = mode_args(Mode::Create);
    assert_eq!(args.mode(), model::Mode::Create)
}

#[test]
fn maps_append() {
    let args = mode_args(Mode::Append);
    assert_eq!(args.mode(), model::Mode::Append)
}

#[test]
fn maps_delete() {
    let args = mode_args(Mode::Delete);
    assert_eq!(args.mode(), model::Mode::Delete)
}

#[test]
fn maps_half_days() {
    let mut args = mode_args(Mode::Create);
    assert_eq!(args.half_day(), None);
    args.half_day = Some(HalfDay::Am);
    assert_eq!(args.half_day(), Some(model::HalfDay::Am));
    args.half_day = Some(HalfDay::Pm);
    assert_eq!(args.half_day(), Some(model::HalfDay::Pm));
}

#[test]
fn defaults_to_office_and_create() {
    assert_eq!(RecordType::default(), RecordType::Office);
    assert_eq!(Mode::default(), Mode::Create);
}
