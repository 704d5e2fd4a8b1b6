use crabdrop::delete::delete_file;
use crabdrop::delete::delete_prefix;
use crabdrop::delete::DeleteKind;
use crabdrop::delete::DELETE_BATCH;

fn keys(n: usize) -> Vec<String> {
    (0..n).map(|i| format!("docs/{}", i)).collect()
}

#[test]
fn delete_kinds() {
    assert_eq!(delete_file(true), DeleteKind::Prefix);
    assert_eq!(delete_file(false), DeleteKind::Object);
    assert_eq!(DELETE_BATCH, 1000);
}

#[test]
fn no_keys_give_no_request() {
    assert!(delete_prefix(Vec::new()).is_empty());
}

#[test]
fn few_keys_give_one_request() {
    let batches = delete_prefix(keys(3));
    assert_eq!(batches, vec![keys(3)]);
    let batches = delete_prefix(keys(1000));
    assert_eq!(batches.len(), 1);
    assert_eq!(batches[0], keys(1000));
}

#[test]
fn many_keys_are_cut_into_requests_of_a_thousand() {
    let all = keys(2501);
    let batches = delete_prefix(all.clone());
    assert_eq!(batches.len(), 3);
    assert_eq!(batches[0].len(), 1000);
    assert_eq!(batches[1].len(), 1000);
    assert_eq!(batches[2].len(), 501);
    let joined: Vec<String> = batches.into_iter().flatten().collect();
    assert_eq!(joined, all);
    let batches = delete_prefix(keys(1001));
    assert_eq!(batches.len(), 2);
    assert_eq!(batches[1], vec!["docs/1000".to_string()]);
    let batches = delete_prefix(keys(2000));
    assert_eq!(batches.len(), 2);
    assert!(batches.iter().all(|b| b.len() == 1000));
}
