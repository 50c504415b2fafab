use aurora_release_repository::id::error::{IdError, VersionError};
use aurora_release_repository::id::{Checksum, Id, Status, Version};
use aurora_release_repository::{Error, State};
use near_sdk::env::sha256;

const OWNER: &str = "owner.near";

fn code_data(last: Option<u8>) -> Vec<u8> {
    let mut data = vec![100, 121, 31, 20, 0, 23, 32];
    if let Some(b) = last {
        data.push(b);
    }
    data
}

#[test]
fn test_push() {
    let mut contract = State::new(OWNER.to_string());
    let code_data = code_data(None);
    let checksum = Checksum(sha256(&code_data));
    let version = "v1.2.3";
    let id = Id::new(Version::try_from(version).unwrap(), checksum);
    let latest = false;

    let res = contract.push(OWNER, version.to_string(), code_data, latest);
    assert!(res.is_ok());

    let res = Id::try_from(res.unwrap()).unwrap();
    assert_eq!(res, id);
}

#[test]
fn test_push_2mb() {
    let mut contract = State::new(OWNER.to_string());
    let code_data: Vec<u8> = (0..20 * 1024).map(|_| 0xFF).collect();
    let checksum = Checksum(sha256(&code_data));
    let version = "v1.2.3";
    let id = Id::new(Version::try_from(version).unwrap(), checksum);
    let latest = false;

    let res = contract.push(OWNER, version.to_string(), code_data, latest);
    assert!(res.is_ok());

    let res = Id::try_from(res.unwrap()).unwrap();
    assert_eq!(res, id);
}

#[test]
fn test_pull() {
    let mut contract = State::new(OWNER.to_string());
    let code_data = code_data(None);
    let checksum = Checksum(sha256(&code_data));
    let version = "v1.2.3";
    let id = Id::new(Version::try_from(version).unwrap(), checksum.clone());
    let latest = false;

    let res = contract.push(OWNER, version.to_string(), code_data, latest);
    assert!(res.is_ok());

    let res = Id::try_from(res.unwrap()).unwrap();
    assert_eq!(res, id);

    let res = contract.get_status(id.to_string()).unwrap().unwrap();
    assert_eq!(res.status, Status::Released);
    assert_eq!(res.id.version.to_string(), version);
    assert_eq!(res.id.checksum.to_string(), checksum.to_string());

    let res = contract.pull(OWNER, id.to_string()).unwrap().unwrap();
    assert_eq!(res.status, Status::Yanked);
    assert_eq!(res.id.version.to_string(), version);
    assert_eq!(res.id.checksum.to_string(), checksum.to_string());
}

#[test]
fn test_push_and_list_check_id_and_blob() {
    let mut contract = State::new(OWNER.to_string());
    let mut release_list: Vec<Id> = vec![];
    let mut release_id = None;
    for (last, version, latest) in [(1, "v1.2.3", false), (2, "v1.2.4", true), (3, "v1.2.5", false)] {
        let code = code_data(Some(last));
        let checksum = Checksum(sha256(&code));
        let id = Id::new(Version::try_from(version).unwrap(), checksum);
        release_list.push(id.clone());
        if latest {
            release_id = Some(id.clone());
        }

        let res = contract.push(OWNER, version.to_string(), code.clone(), latest);
        let res = Id::try_from(res.unwrap()).unwrap();
        assert_eq!(res, id);

        let res = contract.get_blob(id.to_string()).unwrap();
        assert_eq!(res, Some(code));
    }

    assert_eq!(contract.latest(), release_id);

    let res = contract.list();
    assert_eq!(res.len(), 3);
    for (i, status) in res.iter().enumerate() {
        assert_eq!(status.id, release_list[i]);
        assert_eq!(status.status, Status::Released);
    }
}

#[test]
fn test_yank() {
    let mut contract = State::new(OWNER.to_string());
    let mut release_list: Vec<Id> = vec![];
    for (last, version, latest) in [(1, "v1.2.3", false), (2, "v1.2.4", true), (3, "v1.2.5", false)] {
        let code = code_data(Some(last));
        let id = Id::new(Version::try_from(version).unwrap(), Checksum(sha256(&code)));
        release_list.push(id.clone());
        let res = contract.push(OWNER, version.to_string(), code.clone(), latest);
        assert_eq!(Id::try_from(res.unwrap()).unwrap(), id);
        assert_eq!(contract.get_blob(id.to_string()).unwrap(), Some(code));
    }
    let yank_id = release_list[1].clone();
    assert_eq!(contract.latest(), Some(yank_id.clone()));

    let res = contract.clone().yank_list();
    assert!(res.is_empty());

    let res = contract.pull(OWNER, yank_id.to_string()).unwrap().unwrap();
    assert_eq!(res.status, Status::Yanked);
    assert_eq!(res.id, yank_id);

    let res = contract.clone().yank_list();
    assert_eq!(res.len(), 1);
    assert_eq!(res[0].version.to_string(), yank_id.version.to_string());
    assert_eq!(res[0].checksum.to_string(), yank_id.checksum.to_string());

    let res = contract.get_status(yank_id.to_string()).unwrap().unwrap();
    assert_eq!(res.status, Status::Yanked);
    assert_eq!(res.id.version.to_string(), yank_id.version.to_string());
    assert_eq!(res.id.checksum.to_string(), yank_id.checksum.to_string());
    assert_eq!(contract.get_blob(yank_id.to_string()).unwrap(), None);
    assert_eq!(contract.latest(), Some(yank_id.clone()));

    let statuses: Vec<Status> = contract.list().iter().map(|s| s.status).collect();
    assert_eq!(statuses, vec![Status::Released, Status::Yanked, Status::Released]);
}

#[test]
fn yank_list_records_withdrawals() {
    let mut contract = State::new(OWNER.to_string());
    let code = code_data(Some(2));
    let text = contract.push(OWNER, "v1.2.4".to_string(), code, true).unwrap();
    let id = Id::try_from(text.as_str()).unwrap();
    contract.pull(OWNER, text).unwrap();
    assert_eq!(contract.yank_list(), vec![id]);
}

#[test]
fn end_to_end_scenario() {
    let mut contract = State::new(OWNER.to_string());
    let code = vec![100, 121, 31, 20, 0, 23, 32];
    let text = contract
        .push(OWNER, "v1.2.3".to_string(), code.clone(), false)
        .unwrap();
    assert_eq!(text, format!("v1.2.3-{}", hex::encode(sha256(&code))));

    let status = contract.get_status(text.clone()).unwrap().unwrap();
    assert_eq!(status.status, Status::Released);
    assert_eq!(contract.get_blob(text.clone()).unwrap(), Some(code));

    let status = contract.pull(OWNER, text.clone()).unwrap().unwrap();
    assert_eq!(status.status, Status::Yanked);
    assert_eq!(contract.get_blob(text.clone()).unwrap(), None);
    let status = contract.get_status(text).unwrap().unwrap();
    assert_eq!(status.status, Status::Yanked);
}

#[test]
fn push_checksum_is_sha256() {
    let mut contract = State::new(OWNER.to_string());
    let text = contract
        .push(OWNER, "v0.0.1".to_string(), b"abc".to_vec(), false)
        .unwrap();
    assert_eq!(
        text,
        "v0.0.1-ba7816bf8f01cfea414140de5dae2223b00361a396177a9cb410ff61f20015ad"
    );
}

#[test]
fn push_with_checksum_builds_id() {
    let mut contract = State::new(OWNER.to_string());
    let text = contract
        .push_with_checksum(OWNER, "v7.8.9".to_string(), Checksum(vec![0xab; 32]), vec![1], true)
        .unwrap();
    assert_eq!(text, format!("v7.8.9-{}", "ab".repeat(32)));
    let latest = contract.latest().unwrap();
    assert_eq!(latest.to_string(), text);
}

#[test]
fn push_by_stranger_is_denied() {
    let mut contract = State::new(OWNER.to_string());
    let res = contract.push("mallory.near", "v1.2.3".to_string(), vec![1, 2], true);
    assert!(matches!(res, Err(Error::AccessDenied)));
    assert!(contract.latest().is_none());
    assert!(contract.list().is_empty());
}

#[test]
fn pull_by_stranger_is_denied() {
    let mut contract = State::new(OWNER.to_string());
    let text = contract.push(OWNER, "v1.2.3".to_string(), vec![1, 2], false).unwrap();
    assert!(matches!(
        contract.pull("mallory.near", text.clone()),
        Err(Error::AccessDenied)
    ));
    let status = contract.get_status(text).unwrap().unwrap();
    assert_eq!(status.status, Status::Released);
}

#[test]
fn push_with_bad_version_fails() {
    let mut contract = State::new(OWNER.to_string());
    let res = contract.push(OWNER, "1.2.3".to_string(), vec![1], false);
    assert!(matches!(
        res,
        Err(Error::IdError(IdError::Version(VersionError::UnusualVersion)))
    ));
    let res = contract.push(OWNER, "v1.2.q".to_string(), vec![1], false);
    assert!(matches!(
        res,
        Err(Error::IdError(IdError::Version(VersionError::ParseInt(_))))
    ));
    assert!(contract.list().is_empty());
}

#[test]
fn malformed_id_texts_are_reported() {
    let mut contract = State::new(OWNER.to_string());
    assert!(matches!(
        contract.get_status("v1.2.3".to_string()),
        Err(Error::IdError(IdError::UnusualId))
    ));
    assert!(matches!(
        contract.get_blob("v1.2.3-abc".to_string()),
        Err(Error::IdError(IdError::HashLen))
    ));
    assert!(matches!(
        contract.pull(OWNER, format!("1.2.3-{}", "00".repeat(32))),
        Err(Error::IdError(IdError::MissingVPrefix))
    ));
}

#[test]
fn pull_of_unknown_id_is_none() {
    let mut contract = State::new(OWNER.to_string());
    let res = contract.pull(OWNER, format!("v1.2.3-{}", "00".repeat(32)));
    assert!(matches!(res, Ok(None)));
    assert!(contract.yank_list().is_empty());
}

#[test]
fn is_owner_compares_accounts() {
    let contract = State::new(OWNER.to_string());
    assert!(contract.is_owner(OWNER));
    assert!(!contract.is_owner("owner.near2"));
    assert!(!contract.is_owner(""));
}
