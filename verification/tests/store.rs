use pask::LoadError;
use pask::Task;
use pask::Tasks;

fn task(desc: &str, start: Option<(u8, u8)>, end: Option<(u8, u8)>, completed: bool) -> Task {
    Task { desc: desc.to_string(), start_time: start, end_time: end, completed }
}

#[test]
fn save_load_empty_round_trip() {
    let tasks = Tasks::new();
    let doc = tasks.to_json();
    let back = Tasks::get_tasks(Some(doc.as_str())).unwrap();
    assert!(back.is_empty());
}

#[test]
fn load_without_content_is_empty() {
    let back = Tasks::get_tasks(None).unwrap();
    assert!(back.is_empty());
}

#[test]
fn save_load_round_trip() {
    let mut tasks = Tasks::new();
    tasks.add_task(task("gym", Some((7, 0)), Some((8, 30)), false));
    tasks.add_task(task("lunch", Some((12, 0)), None, true));
    tasks.add_task(task("inbox", None, None, false));
    let doc = tasks.to_json();
    let back = Tasks::get_tasks(Some(doc.as_str())).unwrap();
    assert_eq!(back.len(), 3);
    assert_eq!(back.render(), tasks.render());
    assert_eq!(back.get(0).desc, "gym");
    assert_eq!(back.get(0).start_time, Some((7, 0)));
    assert_eq!(back.get(0).end_time, Some((8, 30)));
    assert!(!back.get(0).completed);
    assert!(back.get(1).completed);
    assert_eq!(back.get(2).start_time, None);
}

#[test]
fn save_load_round_trip_with_escapes() {
    let mut tasks = Tasks::new();
    tasks.add_task(task("say \"hi\" to C:\\temp", None, None, false));
    tasks.add_task(task("caffè 漢字", Some((23, 59)), None, true));
    let doc = tasks.to_json();
    let back = Tasks::get_tasks(Some(doc.as_str())).unwrap();
    // The timed task sorted in front of the untimed one on add.
    assert_eq!(back.get(0).desc, "caffè 漢字");
    assert_eq!(back.get(0).start_time, Some((23, 59)));
    assert_eq!(back.get(1).desc, "say \"hi\" to C:\\temp");
    assert_eq!(back.get(1).start_time, None);
}

#[test]
fn canonical_document_shape() {
    let mut tasks = Tasks::new();
    tasks.add_task(task("gym", Some((7, 0)), None, false));
    assert_eq!(
        tasks.to_json(),
        "{\"tasks\":[{\"desc\":\"gym\",\"start_time\":[7,0],\"end_time\":null,\"completed\":false}]}"
    );
    assert_eq!(Tasks::new().to_json(), "{\"tasks\":[]}");
}

#[test]
fn document_is_valid_json() {
    let mut tasks = Tasks::new();
    tasks.add_task(task("say \"hi\"", Some((7, 5)), None, true));
    tasks.add_task(task("inbox", None, None, false));
    let doc = tasks.to_json();
    let v: serde_json::Value = serde_json::from_str(&doc).unwrap();
    let list = v["tasks"].as_array().unwrap();
    assert_eq!(list.len(), 2);
    assert_eq!(list[0]["desc"].as_str(), Some("say \"hi\""));
    assert_eq!(list[0]["start_time"][0].as_u64(), Some(7));
    assert_eq!(list[0]["start_time"][1].as_u64(), Some(5));
    assert!(list[0]["end_time"].is_null());
    assert_eq!(list[0]["completed"].as_bool(), Some(true));
    assert_eq!(list[1]["desc"].as_str(), Some("inbox"));
    assert!(list[1]["start_time"].is_null());
}

#[test]
fn corrupt_content_is_rejected() {
    assert_eq!(Tasks::get_tasks(Some("garbage")).err(), Some(LoadError::Corrupt));
    assert_eq!(Tasks::get_tasks(Some("")).err(), Some(LoadError::Corrupt));
    assert_eq!(Tasks::get_tasks(Some("{\"tasks\":[")).err(), Some(LoadError::Corrupt));
    assert_eq!(Tasks::get_tasks(Some("{\"tasks\":[]} ")).err(), Some(LoadError::Corrupt));
    assert_eq!(
        Tasks::get_tasks(Some("{\"tasks\":[{\"desc\":\"x\"}]}")).err(),
        Some(LoadError::Corrupt)
    );
}
