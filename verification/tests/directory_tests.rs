use group_session::directory::Directory;
use group_session::errors::DirectoryError;

#[test]
fn publish_then_get_returns_package_bit_for_bit() {
    let mut dir = Directory::new();
    let identity = b"alice".to_vec();
    let package = vec![1u8, 2, 3, 4, 5, 255, 0, 42];
    assert_eq!(dir.publish(identity.clone(), package.clone()), Ok(()));
    let got = dir.get(&identity).expect("published identity must be found");
    assert_eq!(got, package);
}

#[test]
fn get_unpublished_identity_fails_not_found() {
    let mut dir = Directory::new();
    dir.publish(b"alice".to_vec(), vec![1, 2, 3]).unwrap();
    assert_eq!(dir.get(&b"bob".to_vec()), Err(DirectoryError::NotFound));
    let empty = Directory::new();
    assert_eq!(empty.get(&b"alice".to_vec()), Err(DirectoryError::NotFound));
}

#[test]
fn publish_overwrites_last_write_wins() {
    let mut dir = Directory::new();
    let identity = b"alice".to_vec();
    dir.publish(identity.clone(), vec![1]).unwrap();
    dir.publish(identity.clone(), vec![2, 3]).unwrap();
    assert_eq!(dir.get(&identity).unwrap(), vec![2, 3]);
    assert_eq!(dir.len(), 1);
}

#[test]
fn publish_rejects_identity_that_is_not_text() {
    let mut dir = Directory::new();
    // 0xff never occurs in valid UTF-8.
    let result = dir.publish(vec![0xff, 0xfe, 0x61], vec![1, 2, 3]);
    assert_eq!(result, Err(DirectoryError::MalformedIdentity));
    assert_eq!(dir.len(), 0);
}

#[test]
fn list_after_distinct_publishes_has_exactly_that_many_identities() {
    let identities: Vec<Vec<u8>> = vec![b"alice".to_vec(), b"bob".to_vec(), b"carol".to_vec()];

    let mut forward = Directory::new();
    for (index, identity) in identities.iter().enumerate() {
        forward.publish(identity.clone(), vec![index as u8]).unwrap();
    }
    let mut listed = forward.list();
    assert_eq!(listed.len(), 3);
    listed.sort();
    let mut expected = identities.clone();
    expected.sort();
    assert_eq!(listed, expected);

    // The same publishes in the reverse order leave the same identities.
    let mut backward = Directory::new();
    for (index, identity) in identities.iter().enumerate().rev() {
        backward.publish(identity.clone(), vec![index as u8]).unwrap();
    }
    let mut listed_backward = backward.list();
    listed_backward.sort();
    assert_eq!(listed_backward, expected);
    assert_eq!(backward.len(), 3);
}

#[test]
fn list_has_no_duplicates_after_overwrites() {
    let mut dir = Directory::new();
    dir.publish(b"alice".to_vec(), vec![1]).unwrap();
    dir.publish(b"bob".to_vec(), vec![2]).unwrap();
    dir.publish(b"alice".to_vec(), vec![3]).unwrap();
    let listed = dir.list();
    assert_eq!(listed.len(), 2);
    assert!(listed.contains(&b"alice".to_vec()));
    assert!(listed.contains(&b"bob".to_vec()));
}

#[test]
fn publish_package_rejects_garbage_body() {
    let mut dir = Directory::new();
    let result = group_session::directory::publish_package(&mut dir, vec![0xde, 0xad, 0xbe, 0xef]);
    assert_eq!(result, Err(DirectoryError::MalformedPackage));
    assert_eq!(dir.len(), 0);
}
