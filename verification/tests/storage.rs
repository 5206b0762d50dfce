use invoices::paths::{file_path, period_dir};
use invoices::store::{ArchiveFile, FileStore};

fn names_of(ar: &Vec<ArchiveFile>) -> Vec<Vec<u8>> {
    let mut out: Vec<Vec<u8>> = Vec::new();
    for f in ar.iter() {
        out.push(f.name.clone());
    }
    out
}

fn lookup<'a>(ar: &'a Vec<ArchiveFile>, name: &[u8]) -> Option<&'a Vec<u8>> {
    for f in ar.iter() {
        if f.name.as_slice() == name {
            return Some(&f.data);
        }
    }
    None
}

#[test]
fn storage_path_layout() {
    let p = file_path(
        &b"alice".to_vec(),
        &b"202403".to_vec(),
        &b"receipt1.png".to_vec(),
    );
    assert_eq!(p, b"files/alice/202403/receipt1.png".to_vec());
    let d = period_dir(&b"alice".to_vec(), &b"202403".to_vec());
    assert_eq!(d, b"files/alice/202403".to_vec());
}

#[test]
fn store_then_retrieve_round_trip() {
    let mut st = FileStore::new();
    st.store(
        b"alice".to_vec(),
        b"202403".to_vec(),
        b"receipt1.png".to_vec(),
        b"PNGDATA".to_vec(),
    );
    st.store(
        b"alice".to_vec(),
        b"202403".to_vec(),
        b"receipt2.png".to_vec(),
        b"OTHER".to_vec(),
    );
    let ar = st
        .build_archive(&b"alice".to_vec(), &b"202403".to_vec())
        .expect("bucket has files");
    assert_eq!(ar.len(), 2);
    assert_eq!(lookup(&ar, b"receipt1.png"), Some(&b"PNGDATA".to_vec()));
    assert_eq!(lookup(&ar, b"receipt2.png"), Some(&b"OTHER".to_vec()));
}

#[test]
fn overwrite_keeps_latest_bytes_only() {
    let mut st = FileStore::new();
    st.store(
        b"alice".to_vec(),
        b"202403".to_vec(),
        b"receipt1.png".to_vec(),
        b"FIRST".to_vec(),
    );
    st.store(
        b"alice".to_vec(),
        b"202403".to_vec(),
        b"receipt1.png".to_vec(),
        b"SECOND".to_vec(),
    );
    let ar = st
        .build_archive(&b"alice".to_vec(), &b"202403".to_vec())
        .expect("bucket has a file");
    assert_eq!(ar.len(), 1);
    assert_eq!(lookup(&ar, b"receipt1.png"), Some(&b"SECOND".to_vec()));
}

#[test]
fn empty_period_yields_no_archive() {
    let mut st = FileStore::new();
    assert!(st
        .build_archive(&b"alice".to_vec(), &b"202403".to_vec())
        .is_none());
    st.store(
        b"alice".to_vec(),
        b"202403".to_vec(),
        b"receipt1.png".to_vec(),
        b"PNGDATA".to_vec(),
    );
    // another period of the same owner still has nothing
    assert!(st
        .build_archive(&b"alice".to_vec(), &b"202401".to_vec())
        .is_none());
    // and the guidance list names exactly the period that has files
    let ps = st.periods_of(&b"alice".to_vec());
    assert_eq!(ps, vec![b"202403".to_vec()]);
}

#[test]
fn buckets_are_isolated_per_owner() {
    let mut st = FileStore::new();
    st.store(
        b"alice".to_vec(),
        b"202403".to_vec(),
        b"receipt1.png".to_vec(),
        b"A".to_vec(),
    );
    st.store(
        b"bob".to_vec(),
        b"202403".to_vec(),
        b"receipt1.png".to_vec(),
        b"B".to_vec(),
    );
    let ar = st
        .build_archive(&b"alice".to_vec(), &b"202403".to_vec())
        .expect("alice has a file");
    assert_eq!(lookup(&ar, b"receipt1.png"), Some(&b"A".to_vec()));
    assert!(st.build_archive(&b"bob".to_vec(), &b"202401".to_vec()).is_none());
    assert_eq!(st.periods_of(&b"bob".to_vec()), vec![b"202403".to_vec()]);
}

#[test]
fn periods_listed_without_repetition() {
    let mut st = FileStore::new();
    st.store(
        b"alice".to_vec(),
        b"202403".to_vec(),
        b"a.png".to_vec(),
        b"1".to_vec(),
    );
    st.store(
        b"alice".to_vec(),
        b"202403".to_vec(),
        b"b.png".to_vec(),
        b"2".to_vec(),
    );
    st.store(
        b"alice".to_vec(),
        b"202401".to_vec(),
        b"c.png".to_vec(),
        b"3".to_vec(),
    );
    let mut ps = st.periods_of(&b"alice".to_vec());
    ps.sort();
    assert_eq!(ps, vec![b"202401".to_vec(), b"202403".to_vec()]);
    let ar = st
        .build_archive(&b"alice".to_vec(), &b"202403".to_vec())
        .expect("two files");
    let mut ns = names_of(&ar);
    ns.sort();
    assert_eq!(ns, vec![b"a.png".to_vec(), b"b.png".to_vec()]);
}
