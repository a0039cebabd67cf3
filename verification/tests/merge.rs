use pyspy_helper::aggregate::{
    aggregate_profiles, calculate_end_value, combine_profiles_weights,
    combine_samples_from_multiple_profiles,
};
use pyspy_helper::combine_speedscope::{combine_speedscope_files, merge_speedscopes};
use pyspy_helper::error::MergeError;
use pyspy_helper::frame_table::create_hash_to_new_index_and_frame;
use pyspy_helper::grouping::extract_same_profile_groups;
use pyspy_helper::remap::adjust_speedscope_to_new_indexes_and_frames;
use pyspy_helper::speedscope_format::{Frame, Profile, Shared, Speedscope};

fn frame(name: &str, file: &str, line: u32, col: Option<u32>) -> Frame {
    Frame { name: name.to_string(), file: file.to_string(), line, col }
}

fn profile(
    name: &str,
    unit: &str,
    start_value: f64,
    end_value: f64,
    samples: Vec<Vec<i32>>,
    weights: Vec<f64>,
) -> Profile<f64> {
    Profile {
        name: name.to_string(),
        unit: unit.to_string(),
        start_value,
        end_value,
        samples,
        weights,
        profile_type: "evented".to_string(),
    }
}

fn document(frames: Vec<Frame>, profiles: Vec<Profile<f64>>) -> Speedscope<f64> {
    Speedscope {
        profiles,
        shared: Shared { frames },
        schema: "in-schema".to_string(),
        exporter: "in-exporter".to_string(),
        name: "in-name".to_string(),
    }
}

#[test]
fn test_combine_profiles_weights() {
    let profile1 = Profile {
        name: "profile1".to_string(),
        unit: "ms".to_string(),
        start_value: 0.0,
        end_value: 100.0,
        samples: vec![vec![0, 1, 2]],
        weights: vec![1.0, 2.0, 3.0],
        profile_type: "sampled".to_string(),
    };
    let profile2 = Profile {
        name: "profile2".to_string(),
        unit: "ms".to_string(),
        start_value: 0.0,
        end_value: 100.0,
        samples: vec![vec![0, 1, 2]],
        weights: vec![4.0, 5.0, 6.0],
        profile_type: "sampled".to_string(),
    };

    let combined_weights = combine_profiles_weights(&vec![&profile1, &profile2]);

    assert_eq!(combined_weights.len(), 6);
    assert_eq!(combined_weights, vec![1.0, 2.0, 3.0, 4.0, 5.0, 6.0]);
}

#[test]
fn test_extract_same_profile_groups() {
    let profile1: Profile<f64> = Profile {
        name: "profile1".to_string(),
        unit: "ms".to_string(),
        start_value: 0.0,
        end_value: 100.0,
        samples: vec![],
        weights: vec![],
        profile_type: "sampled".to_string(),
    };

    let speedscope1 = Speedscope {
        profiles: vec![profile1.clone()],
        shared: Shared {
            frames: vec![Frame::default()],
        },
        schema: "".to_string(),
        exporter: "".to_string(),
        name: "".to_string(),
    };

    let speedscope2 = Speedscope {
        profiles: vec![profile1],
        shared: Shared {
            frames: vec![Frame::default()],
        },
        schema: "".to_string(),
        exporter: "".to_string(),
        name: "".to_string(),
    };

    let speedscopes = vec![speedscope1, speedscope2];
    let result = extract_same_profile_groups(&speedscopes);

    assert_eq!(result.len(), 1);
    assert_eq!(result[0].name, "profile1");
}

#[test]
fn groups_keep_the_order_in_which_names_and_profiles_are_met() {
    let first = document(
        vec![],
        vec![
            profile("b", "u", 0.0, 1.0, vec![], vec![]),
            profile("a", "u", 0.0, 2.0, vec![], vec![]),
            profile("b", "u", 0.0, 3.0, vec![], vec![]),
        ],
    );
    let second = document(
        vec![],
        vec![
            profile("c", "u", 0.0, 4.0, vec![], vec![]),
            profile("a", "u", 0.0, 5.0, vec![], vec![]),
        ],
    );
    let documents = vec![first, second];
    let groups = extract_same_profile_groups(&documents);
    let names: Vec<&str> = groups.iter().map(|g| g.name.as_str()).collect();
    assert_eq!(names, vec!["b", "a", "c"]);
    let ends: Vec<Vec<f64>> =
        groups.iter().map(|g| g.profiles.iter().map(|p| p.end_value).collect()).collect();
    assert_eq!(ends, vec![vec![1.0, 3.0], vec![2.0, 5.0], vec![4.0]]);
}

#[test]
fn no_documents_give_no_groups() {
    let documents: Vec<Speedscope<f64>> = vec![];
    assert!(extract_same_profile_groups(&documents).is_empty());
}

#[test]
fn samples_are_joined_profile_after_profile() {
    let one = profile("p", "u", 0.0, 0.0, vec![vec![0, 1], vec![]], vec![]);
    let two = profile("p", "u", 0.0, 0.0, vec![], vec![]);
    let three = profile("p", "u", 0.0, 0.0, vec![vec![2]], vec![]);
    let samples = combine_samples_from_multiple_profiles(&vec![&one, &two, &three]);
    assert_eq!(samples, vec![vec![0, 1], vec![], vec![2]]);
    let none: Vec<&Profile<f64>> = vec![];
    assert!(combine_samples_from_multiple_profiles(&none).is_empty());
    assert!(combine_profiles_weights(&none).is_empty());
}

#[test]
fn end_values_are_added_from_left_to_right() {
    let one = profile("p", "u", 0.0, 10.0, vec![], vec![]);
    let two = profile("p", "u", 0.0, 5.0, vec![], vec![]);
    let three = profile("p", "u", 0.0, 0.25, vec![], vec![]);
    assert_eq!(calculate_end_value(&vec![&one]), 10.0);
    assert_eq!(calculate_end_value(&vec![&one, &two]), 15.0);
    assert_eq!(calculate_end_value(&vec![&one, &two, &three]), 15.25);
    let big = profile("p", "u", 0.0, 1.0e16, vec![], vec![]);
    let small = profile("p", "u", 0.0, 1.0, vec![], vec![]);
    assert_eq!(calculate_end_value(&vec![&big, &small, &small]), (1.0e16 + 1.0) + 1.0);
    assert_eq!(calculate_end_value(&vec![&small, &small, &big]), (1.0 + 1.0) + 1.0e16);
}

#[test]
fn end_values_of_integers_add_up_too() {
    let one: Profile<u64> = Profile {
        name: "p".to_string(),
        unit: "ns".to_string(),
        start_value: 3,
        end_value: 10,
        samples: vec![],
        weights: vec![],
        profile_type: "sampled".to_string(),
    };
    let two = one.clone();
    assert_eq!(calculate_end_value(&vec![&one, &two]), 20);
}

#[test]
fn an_aggregate_takes_start_and_unit_from_the_first_profile() {
    let one = profile("x", "seconds", 2.0, 10.0, vec![vec![0]], vec![1.0]);
    let two = profile("y", "bytes", 9.0, 5.0, vec![vec![1], vec![2]], vec![2.0, 3.0]);
    let joined = aggregate_profiles(&"main".to_string(), &vec![&one, &two]);
    assert_eq!(joined.name, "main");
    assert_eq!(joined.unit, "seconds");
    assert_eq!(joined.start_value, 2.0);
    assert_eq!(joined.end_value, 15.0);
    assert_eq!(joined.samples, vec![vec![0], vec![1], vec![2]]);
    assert_eq!(joined.weights, vec![1.0, 2.0, 3.0]);
    assert_eq!(joined.profile_type, "sampled");
}

#[test]
fn merging_one_document_keeps_its_counts() {
    let doc = document(
        vec![frame("a", "x.py", 1, None), frame("b", "x.py", 2, Some(4))],
        vec![
            profile("main", "seconds", 1.0, 3.0, vec![vec![0, 1], vec![1]], vec![0.5, 0.75]),
            profile("worker", "seconds", 2.0, 4.0, vec![vec![1, 0, 1]], vec![1.25]),
        ],
    );
    let merged = merge_speedscopes(&vec![doc.clone()]).unwrap();
    assert_eq!(merged.shared.frames.len(), doc.shared.frames.len());
    assert_eq!(merged.profiles.len(), doc.profiles.len());
    for (out, input) in merged.profiles.iter().zip(doc.profiles.iter()) {
        assert_eq!(out.name, input.name);
        assert_eq!(out.samples.len(), input.samples.len());
        assert_eq!(out.weights.len(), input.weights.len());
        assert_eq!(out.samples, input.samples);
        assert_eq!(out.weights, input.weights);
        assert_eq!(out.start_value, input.start_value);
        assert_eq!(out.end_value, input.end_value);
    }
}

#[test]
fn a_frame_found_in_two_documents_gets_one_entry_and_one_index() {
    let first = document(
        vec![frame("other", "o.py", 9, None), frame("f", "a.py", 1, Some(2))],
        vec![profile("one", "s", 0.0, 1.0, vec![vec![1]], vec![1.0])],
    );
    let second = document(
        vec![frame("f", "a.py", 1, Some(2))],
        vec![profile("two", "s", 0.0, 1.0, vec![vec![0, 0]], vec![1.0])],
    );
    let merged = merge_speedscopes(&vec![first, second]).unwrap();
    let copies = merged
        .shared
        .frames
        .iter()
        .filter(|f| f.name == "f" && f.file == "a.py" && f.line == 1 && f.col == Some(2))
        .count();
    assert_eq!(copies, 1);
    assert_eq!(merged.shared.frames.len(), 2);
    assert_eq!(merged.profiles[0].samples, vec![vec![1]]);
    assert_eq!(merged.profiles[1].samples, vec![vec![1, 1]]);
}

#[test]
fn two_profiles_called_main_add_their_end_values() {
    let first = document(vec![], vec![profile("main", "s", 0.0, 10.0, vec![], vec![])]);
    let second = document(vec![], vec![profile("main", "s", 0.0, 5.0, vec![], vec![])]);
    let merged = merge_speedscopes(&vec![first, second]).unwrap();
    assert_eq!(merged.profiles.len(), 1);
    assert_eq!(merged.profiles[0].name, "main");
    assert_eq!(merged.profiles[0].end_value, 15.0);
}

#[test]
fn merged_profiles_have_a_weight_for_each_sample() {
    let first = document(
        vec![frame("a", "x.py", 1, None)],
        vec![
            profile("main", "s", 0.0, 1.0, vec![vec![0], vec![0, 0]], vec![1.0, 2.0]),
            profile("idle", "s", 0.0, 1.0, vec![], vec![]),
        ],
    );
    let second = document(
        vec![frame("b", "x.py", 2, None)],
        vec![profile("main", "s", 0.0, 1.0, vec![vec![0]], vec![3.0])],
    );
    let merged = merge_speedscopes(&vec![first, second]).unwrap();
    for out in merged.profiles.iter() {
        assert_eq!(out.samples.len(), out.weights.len());
    }
    assert_eq!(merged.profiles[0].samples.len(), 3);
    assert_eq!(merged.profiles[1].samples.len(), 0);
}

#[test]
fn merged_names_are_the_names_of_the_inputs_each_once() {
    let first = document(
        vec![],
        vec![
            profile("main", "s", 0.0, 1.0, vec![], vec![]),
            profile("gc", "s", 0.0, 1.0, vec![], vec![]),
        ],
    );
    let second = document(
        vec![],
        vec![
            profile("io", "s", 0.0, 1.0, vec![], vec![]),
            profile("main", "s", 0.0, 1.0, vec![], vec![]),
            profile("gc", "s", 0.0, 1.0, vec![], vec![]),
        ],
    );
    let merged = merge_speedscopes(&vec![first, second]).unwrap();
    let mut names: Vec<String> = merged.profiles.iter().map(|p| p.name.clone()).collect();
    assert_eq!(names, vec!["main", "gc", "io"]);
    names.sort();
    names.dedup();
    assert_eq!(names, vec!["gc", "io", "main"]);
}

#[test]
fn merging_nothing_gives_an_empty_document() {
    let none: Vec<Speedscope<f64>> = vec![];
    let merged = merge_speedscopes(&none).unwrap();
    assert!(merged.profiles.is_empty());
    assert!(merged.shared.frames.is_empty());
    assert_eq!(merged.schema, "https://www.speedscope.app/file-format-schema.json");
    assert_eq!(merged.exporter, "py-spy@0.4.0");
    assert_eq!(merged.name, "py-spy profile");
}

#[test]
fn two_snapshots_of_one_function_merge_into_one_profile() {
    let first = document(
        vec![frame("f", "a.py", 1, None)],
        vec![profile("main", "seconds", 0.0, 10.0, vec![vec![0]], vec![1.0])],
    );
    let second = document(
        vec![frame("f", "a.py", 1, None)],
        vec![profile("main", "seconds", 0.0, 5.0, vec![vec![0]], vec![2.0])],
    );
    let merged = merge_speedscopes(&vec![first, second]).unwrap();
    assert_eq!(merged.shared.frames.len(), 1);
    assert_eq!(merged.profiles.len(), 1);
    let main = &merged.profiles[0];
    assert_eq!(main.name, "main");
    assert_eq!(main.samples, vec![vec![0], vec![0]]);
    assert_eq!(main.weights, vec![1.0, 2.0]);
    assert_eq!(main.end_value, 15.0);
    assert_eq!(main.start_value, 0.0);
    assert_eq!(main.unit, "seconds");
    assert_eq!(main.profile_type, "sampled");
}

#[test]
fn merge_remaps_then_joins() {
    let first = document(
        vec![frame("a", "x.py", 1, None), frame("b", "x.py", 2, None)],
        vec![profile("main", "seconds", 3.0, 1.5, vec![vec![0, 1]], vec![0.5])],
    );
    let second = document(
        vec![frame("c", "x.py", 3, None), frame("a", "x.py", 1, Some(0))],
        vec![
            profile("side", "bytes", 8.0, 2.0, vec![vec![1]], vec![9.0]),
            profile("main", "minutes", 4.0, 2.5, vec![vec![0], vec![1, 0]], vec![0.25, 0.125]),
        ],
    );
    let merged = merge_speedscopes(&vec![first, second]).unwrap();
    let names: Vec<&str> = merged.shared.frames.iter().map(|f| f.name.as_str()).collect();
    assert_eq!(names, vec!["a", "b", "c"]);
    assert_eq!(merged.shared.frames[0].col, None);
    assert_eq!(merged.profiles.len(), 2);
    let main = &merged.profiles[0];
    assert_eq!(main.name, "main");
    assert_eq!(main.unit, "seconds");
    assert_eq!(main.start_value, 3.0);
    assert_eq!(main.end_value, 4.0);
    assert_eq!(main.samples, vec![vec![0, 1], vec![2], vec![0, 2]]);
    assert_eq!(main.weights, vec![0.5, 0.25, 0.125]);
    let side = &merged.profiles[1];
    assert_eq!(side.name, "side");
    assert_eq!(side.unit, "bytes");
    assert_eq!(side.samples, vec![vec![0]]);
    assert_eq!(side.end_value, 2.0);
}

#[test]
fn merge_fails_on_a_document_with_an_index_out_of_range() {
    let good = document(
        vec![frame("a", "x.py", 1, None)],
        vec![profile("main", "s", 0.0, 1.0, vec![vec![0]], vec![1.0])],
    );
    let bad = document(
        vec![frame("a", "x.py", 1, None)],
        vec![profile("main", "s", 0.0, 1.0, vec![vec![3]], vec![1.0])],
    );
    assert_eq!(
        merge_speedscopes(&vec![good, bad]).err(),
        Some(MergeError::FrameIndexOutOfRange)
    );
}

#[test]
fn combine_joins_documents_that_share_a_table() {
    let first = document(
        vec![frame("a", "x.py", 1, None)],
        vec![profile("main", "s", 1.0, 2.0, vec![vec![0]], vec![1.0])],
    );
    let second = document(
        vec![frame("b", "x.py", 2, None)],
        vec![profile("main", "s", 5.0, 3.0, vec![vec![0]], vec![2.0])],
    );
    let documents = vec![first, second];
    let table = create_hash_to_new_index_and_frame(&documents).unwrap();
    let adjusted: Vec<Speedscope<f64>> = documents
        .iter()
        .map(|d| adjust_speedscope_to_new_indexes_and_frames(d, &table).unwrap())
        .collect();
    let combined = combine_speedscope_files(adjusted, table);
    assert_eq!(combined.shared.frames.len(), 2);
    assert_eq!(combined.profiles.len(), 1);
    assert_eq!(combined.profiles[0].samples, vec![vec![0], vec![1]]);
    assert_eq!(combined.profiles[0].weights, vec![1.0, 2.0]);
    assert_eq!(combined.profiles[0].start_value, 1.0);
    assert_eq!(combined.profiles[0].end_value, 5.0);
    assert_eq!(combined.profiles[0].profile_type, "sampled");
    assert_eq!(combined.exporter, "py-spy@0.4.0");
}

#[test]
fn default_profile_is_empty() {
    let p: Profile<f64> = Profile::default();
    assert_eq!(p.name, "");
    assert_eq!(p.unit, "");
    assert_eq!(p.start_value, 0.0);
    assert_eq!(p.end_value, 0.0);
    assert!(p.samples.is_empty());
    assert!(p.weights.is_empty());
    assert_eq!(p.profile_type, "");
}
