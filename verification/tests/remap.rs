use pyspy_helper::error::MergeError;
use pyspy_helper::frame_table::{create_hash_to_new_index_and_frame, FrameTable};
use pyspy_helper::remap::{
    adjust_speedscope_to_new_indexes_and_frames, has_valid_indices, samples_are_in_range,
    stack_is_in_range, look_up_frames,
};
use pyspy_helper::speedscope_format::{Frame, Profile, Shared, Speedscope};

fn frame(name: &str) -> Frame {
    Frame { name: name.to_string(), file: "m.py".to_string(), line: 1, col: None }
}

fn profile(name: &str, samples: Vec<Vec<i32>>, weights: Vec<f64>) -> Profile<f64> {
    Profile {
        name: name.to_string(),
        unit: "seconds".to_string(),
        start_value: 1.5,
        end_value: 7.25,
        samples,
        weights,
        profile_type: "sampled".to_string(),
    }
}

fn document(frames: Vec<Frame>, profiles: Vec<Profile<f64>>) -> Speedscope<f64> {
    Speedscope {
        profiles,
        shared: Shared { frames },
        schema: "s".to_string(),
        exporter: "e".to_string(),
        name: "n".to_string(),
    }
}

#[test]
fn test_adjust_speedscope_to_new_indexes_and_frames() {
    let frame1 = Frame {
        name: "func1".to_string(),
        file: "file1.py".to_string(),
        line: 1,
        col: None,
    };

    let original_speedscope: Speedscope<f64> = Speedscope {
        profiles: vec![Profile::default()],
        shared: Shared {
            frames: vec![frame1.clone()],
        },
        schema: "test".to_string(),
        exporter: "test".to_string(),
        name: "test".to_string(),
    };

    let mut table = FrameTable::new();
    assert_eq!(table.insert(&frame1), Ok(0));

    let adjusted =
        adjust_speedscope_to_new_indexes_and_frames(&original_speedscope, &table).unwrap();

    assert_eq!(adjusted.profiles.len(), 1);
    assert_eq!(adjusted.schema, "test");
    assert_eq!(adjusted.shared.frames.len(), 1);
}

#[test]
fn adjust_rewrites_every_index_and_keeps_the_rest() {
    let first = document(vec![frame("a"), frame("b")], vec![]);
    let second = document(
        vec![frame("b"), frame("c"), frame("a")],
        vec![profile("main", vec![vec![0, 1, 2], vec![], vec![2, 2]], vec![0.5, 0.25, 4.0])],
    );
    let documents = vec![first, second];
    let table = create_hash_to_new_index_and_frame(&documents).unwrap();
    let adjusted = adjust_speedscope_to_new_indexes_and_frames(&documents[1], &table).unwrap();

    assert_eq!(adjusted.profiles.len(), 1);
    let moved = &adjusted.profiles[0];
    assert_eq!(moved.samples, vec![vec![1, 2, 0], vec![], vec![0, 0]]);
    assert_eq!(moved.weights, vec![0.5, 0.25, 4.0]);
    assert_eq!(moved.name, "main");
    assert_eq!(moved.unit, "seconds");
    assert_eq!(moved.start_value, 1.5);
    assert_eq!(moved.end_value, 7.25);
    assert_eq!(moved.profile_type, "sampled");
    let names: Vec<&str> = adjusted.shared.frames.iter().map(|f| f.name.as_str()).collect();
    assert_eq!(names, vec!["a", "b", "c"]);
    assert_eq!(adjusted.schema, "s");
    assert_eq!(adjusted.exporter, "e");
    assert_eq!(adjusted.name, "n");
}

#[test]
fn adjust_rejects_an_index_past_the_frame_list() {
    let doc = document(vec![frame("a")], vec![profile("main", vec![vec![0], vec![1]], vec![])]);
    let table = create_hash_to_new_index_and_frame(&vec![doc.clone()]).unwrap();
    let outcome = adjust_speedscope_to_new_indexes_and_frames(&doc, &table);
    assert_eq!(outcome.err(), Some(MergeError::FrameIndexOutOfRange));
}

#[test]
fn adjust_rejects_a_negative_index() {
    let doc = document(vec![frame("a")], vec![profile("main", vec![vec![-1]], vec![])]);
    let table = create_hash_to_new_index_and_frame(&vec![doc.clone()]).unwrap();
    let outcome = adjust_speedscope_to_new_indexes_and_frames(&doc, &table);
    assert_eq!(outcome.err(), Some(MergeError::FrameIndexOutOfRange));
}

#[test]
fn adjust_rejects_a_frame_that_the_table_lacks() {
    let doc = document(vec![frame("a"), frame("b")], vec![profile("main", vec![vec![1]], vec![])]);
    let mut table = FrameTable::new();
    assert_eq!(table.insert(&frame("a")), Ok(0));
    let outcome = adjust_speedscope_to_new_indexes_and_frames(&doc, &table);
    assert_eq!(outcome.err(), Some(MergeError::FrameNotInTable));
}

#[test]
fn adjust_puts_an_index_out_of_range_before_a_missing_frame() {
    let doc = document(
        vec![frame("a"), frame("b")],
        vec![profile("main", vec![vec![1], vec![2]], vec![])],
    );
    let mut table = FrameTable::new();
    assert_eq!(table.insert(&frame("a")), Ok(0));
    let outcome = adjust_speedscope_to_new_indexes_and_frames(&doc, &table);
    assert_eq!(outcome.err(), Some(MergeError::FrameIndexOutOfRange));
}

#[test]
fn adjust_tolerates_a_missing_frame_that_no_sample_names() {
    let doc = document(vec![frame("a"), frame("b")], vec![profile("main", vec![vec![0]], vec![])]);
    let mut table = FrameTable::new();
    assert_eq!(table.insert(&frame("z")), Ok(0));
    assert_eq!(table.insert(&frame("a")), Ok(1));
    let adjusted = adjust_speedscope_to_new_indexes_and_frames(&doc, &table).unwrap();
    assert_eq!(adjusted.profiles[0].samples, vec![vec![1]]);
    assert_eq!(adjusted.shared.frames.len(), 2);
}

#[test]
fn valid_indices_are_those_inside_the_frame_list() {
    assert!(stack_is_in_range(&vec![0, 2, 1], 3));
    assert!(!stack_is_in_range(&vec![0, 3], 3));
    assert!(!stack_is_in_range(&vec![-1], 3));
    assert!(stack_is_in_range(&vec![], 0));
    assert!(!stack_is_in_range(&vec![0], 0));
    assert!(samples_are_in_range(&vec![vec![0], vec![1]], 2));
    assert!(!samples_are_in_range(&vec![vec![0], vec![2]], 2));
    assert!(has_valid_indices(&document(vec![frame("a")], vec![profile("p", vec![vec![0]], vec![])])));
    assert!(!has_valid_indices(&document(vec![], vec![profile("p", vec![vec![0]], vec![])])));
    assert!(has_valid_indices(&document(vec![], vec![])));
}

#[test]
fn frames_are_looked_up_one_by_one() {
    let mut table = FrameTable::new();
    assert_eq!(table.insert(&frame("x")), Ok(0));
    assert_eq!(table.insert(&frame("y")), Ok(1));
    let indices = look_up_frames(&vec![frame("y"), frame("q"), frame("x")], &table);
    assert_eq!(indices, vec![Some(1), None, Some(0)]);
}
