use tempus::ml::labels_by_id;
use tempus::ml_training::encode_labels;

fn strings(v: &[&str]) -> Vec<String> {
    v.iter().map(|s| s.to_string()).collect()
}

#[test]
fn labels_are_numbered_in_order_of_first_appearance() {
    let r = encode_labels(&strings(&["work", "play", "work", "study", "play"]));
    assert_eq!(r.ids, vec![0, 1, 0, 2, 1]);
    assert_eq!(r.names, strings(&["work", "play", "study"]));
    let empty = encode_labels(&Vec::new());
    assert!(empty.ids.is_empty() && empty.names.is_empty());
}

#[test]
fn label_table_is_turned_around() {
    let pairs = vec![("play".to_string(), 1), ("study".to_string(), 2), ("work".to_string(), 0)];
    assert_eq!(labels_by_id(&pairs), strings(&["work", "play", "study"]));
}

#[test]
fn numbers_without_a_label_get_empty_text() {
    let pairs = vec![("a".to_string(), 1), ("b".to_string(), 1)];
    assert_eq!(labels_by_id(&pairs), strings(&["", "b"]));
}

#[test]
fn training_numbers_read_back_as_their_labels() {
    let labels = strings(&["x", "y", "x", "z"]);
    let r = encode_labels(&labels);
    let mut pairs: Vec<(String, usize)> = r.names.iter().cloned().zip(0..).collect();
    pairs.reverse();
    let names = labels_by_id(&pairs);
    for (i, label) in labels.iter().enumerate() {
        assert_eq!(&names[r.ids[i]], label);
    }
}
