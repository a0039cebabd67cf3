use pyspy_helper::error::MergeError;
use pyspy_helper::frame_table::{
    create_hash_to_new_index_and_frame, get_sorted_frames, FrameTable,
};
use pyspy_helper::speedscope_format::{Frame, Shared, Speedscope};

fn frame(name: &str, file: &str, line: u32, col: Option<u32>) -> Frame {
    Frame { name: name.to_string(), file: file.to_string(), line, col }
}

fn document(frames: Vec<Frame>) -> Speedscope<f64> {
    Speedscope {
        profiles: vec![],
        shared: Shared { frames },
        schema: "".to_string(),
        exporter: "".to_string(),
        name: "".to_string(),
    }
}

#[test]
fn test_create_hash_to_new_index_and_frame() {
    let frame1 = Frame {
        name: "func1".to_string(),
        file: "file1.py".to_string(),
        line: 1,
        col: None,
    };
    let frame2 = Frame {
        name: "func2".to_string(),
        file: "file2.py".to_string(),
        line: 2,
        col: None,
    };

    let speedscope: Speedscope<f64> = Speedscope {
        profiles: vec![],
        shared: Shared {
            frames: vec![frame1.clone(), frame2.clone()],
        },
        schema: "".to_string(),
        exporter: "".to_string(),
        name: "".to_string(),
    };

    let result = create_hash_to_new_index_and_frame(&vec![speedscope]).unwrap();

    assert_eq!(result.len(), 2);
    assert!(get_sorted_frames(&result).iter().any(|f| f.name == "func1"));
    assert!(get_sorted_frames(&result).iter().any(|f| f.name == "func2"));
}

#[test]
fn hash_is_name_file_line_and_column() {
    let key = frame("f", "a.py", 7, Some(3)).hash();
    assert_eq!(key.name, "f");
    assert_eq!(key.file, "a.py");
    assert_eq!(key.line, 7);
    assert_eq!(key.col, 3);
}

#[test]
fn hash_counts_a_missing_column_as_column_zero() {
    let unknown = frame("f", "a.py", 1, None);
    let zero = frame("f", "a.py", 1, Some(0));
    let one = frame("f", "a.py", 1, Some(1));
    assert_eq!(unknown.hash().col, 0);
    assert!(unknown.hash() == zero.hash());
    assert!(unknown.hash() != one.hash());
}

#[test]
fn hash_tells_frames_apart_field_by_field() {
    let base = frame("f", "a.py", 1, Some(2));
    assert!(base.hash() == frame("f", "a.py", 1, Some(2)).hash());
    assert!(base.hash() != frame("g", "a.py", 1, Some(2)).hash());
    assert!(base.hash() != frame("f", "b.py", 1, Some(2)).hash());
    assert!(base.hash() != frame("f", "a.py", 2, Some(2)).hash());
    assert!(base.hash() != frame("f", "a.py", 1, Some(3)).hash());
}

#[test]
fn hash_does_not_confuse_a_delimiter_inside_a_field() {
    let left = frame("a:b", "c", 1, None);
    let right = frame("a", "b:c", 1, None);
    assert!(left.hash() != right.hash());
    let table = create_hash_to_new_index_and_frame(&vec![document(vec![left, right])]).unwrap();
    assert_eq!(table.len(), 2);
}

#[test]
fn is_identity_of_compares_with_a_frame() {
    let key = frame("f", "a.py", 1, None).hash();
    assert!(key.is_identity_of(&frame("f", "a.py", 1, Some(0))));
    assert!(!key.is_identity_of(&frame("f", "a.py", 1, Some(4))));
    assert!(!key.is_identity_of(&frame("f", "a.py", 2, None)));
}

#[test]
fn an_empty_table_holds_nothing() {
    let table = FrameTable::new();
    assert_eq!(table.len(), 0);
    assert_eq!(table.index_of(&frame("f", "a.py", 1, None).hash()), None);
    assert!(get_sorted_frames(&table).is_empty());
}

#[test]
fn insert_gives_indices_in_order_of_first_appearance() {
    let mut table = FrameTable::new();
    assert_eq!(table.insert(&frame("a", "x.py", 1, None)), Ok(0));
    assert_eq!(table.insert(&frame("b", "x.py", 2, None)), Ok(1));
    assert_eq!(table.insert(&frame("a", "x.py", 1, None)), Ok(0));
    assert_eq!(table.insert(&frame("c", "x.py", 3, None)), Ok(2));
    assert_eq!(table.insert(&frame("b", "x.py", 2, None)), Ok(1));
    assert_eq!(table.len(), 3);
    assert_eq!(table.index_of(&frame("c", "x.py", 3, None).hash()), Some(2));
    assert_eq!(table.index_of(&frame("d", "x.py", 4, None).hash()), None);
}

#[test]
fn the_first_frame_of_an_identity_is_the_one_that_stays() {
    let mut table = FrameTable::new();
    assert_eq!(table.insert(&frame("f", "a.py", 1, None)), Ok(0));
    assert_eq!(table.insert(&frame("f", "a.py", 1, Some(0))), Ok(0));
    let frames = get_sorted_frames(&table);
    assert_eq!(frames.len(), 1);
    assert_eq!(frames[0].col, None);
}

#[test]
fn the_table_spans_documents_in_order() {
    let first = document(vec![frame("a", "x.py", 1, None), frame("b", "x.py", 2, None)]);
    let second = document(vec![
        frame("c", "y.py", 3, None),
        frame("b", "x.py", 2, None),
        frame("d", "y.py", 4, Some(9)),
    ]);
    let table = create_hash_to_new_index_and_frame(&vec![first, second]).unwrap();
    let frames = get_sorted_frames(&table);
    let names: Vec<&str> = frames.iter().map(|f| f.name.as_str()).collect();
    assert_eq!(names, vec!["a", "b", "c", "d"]);
    assert_eq!(frames[3].col, Some(9));
    assert_eq!(table.index_of(&frame("c", "y.py", 3, None).hash()), Some(2));
}

#[test]
fn no_documents_give_an_empty_table() {
    let none: Vec<Speedscope<f64>> = vec![];
    let table = create_hash_to_new_index_and_frame(&none).unwrap();
    assert_eq!(table.len(), 0);
}

#[test]
fn the_error_variants_differ() {
    assert_ne!(MergeError::TooManyFrames, MergeError::FrameIndexOutOfRange);
    assert_ne!(MergeError::FrameIndexOutOfRange, MergeError::FrameNotInTable);
}

#[test]
fn default_frame_is_empty() {
    let f = Frame::default();
    assert_eq!(f.name, "");
    assert_eq!(f.file, "");
    assert_eq!(f.line, 0);
    assert_eq!(f.col, None);
}
