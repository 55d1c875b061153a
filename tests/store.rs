use japanese_properties_api::store::{PropertyStore, UploadError};

const HEADER: &str = "prefecture,city,town,chome,banchi,go,building,price,nearest_station,property_type,land_area";

fn rows(n: usize, tag: &str) -> String {
    let mut text = String::from(HEADER);
    for i in 0..n {
        text.push_str(&format!("\n{}{},c,t,1,2,3,b,100,s,house,50", tag, i));
    }
    text
}

#[test]
fn new_store_is_empty() {
    let store = PropertyStore::new();
    assert_eq!(store.len(), 0);
    assert!(store.list_all().is_empty());
    assert!(store.get(1).is_none());
}

#[test]
fn upload_of_n_rows_resolves_every_id() {
    let mut store = PropertyStore::new();
    assert_eq!(store.upload(&rows(4, "x")), 0);
    assert_eq!(store.list_all().len(), 4);
    for id in 1..=4 {
        let p = store.get(id).unwrap();
        assert_eq!(p.id, id);
        assert_eq!(p.prefecture, format!("x{}", id - 1));
    }
}

#[test]
fn lookup_outside_range_is_not_found() {
    let mut store = PropertyStore::new();
    store.upload(&rows(3, "x"));
    assert!(store.get(0).is_none());
    assert!(store.get(4).is_none());
    assert!(store.get(usize::MAX).is_none());
}

#[test]
fn header_only_upload_empties_the_store() {
    let mut store = PropertyStore::new();
    store.upload(&rows(2, "x"));
    assert_eq!(store.upload(HEADER), 0);
    assert!(store.list_all().is_empty());
}

#[test]
fn second_upload_supersedes_the_first() {
    let mut store = PropertyStore::new();
    store.upload(&rows(5, "old"));
    store.upload(&rows(2, "new"));
    let all = store.list_all();
    assert_eq!(all.len(), 2);
    assert!(all.iter().all(|p| p.prefecture.starts_with("new")));
    assert!(store.get(3).is_none());
}

#[test]
fn short_rows_are_never_stored() {
    let mut store = PropertyStore::new();
    let text = format!("{}\na,b,c\nd,e,f,g,h,i,j,k,l,m,n\n1,2,3,4,5,6,7,8,9,10", HEADER);
    assert_eq!(store.upload(&text), 2);
    let all = store.list_all();
    assert_eq!(all.len(), 1);
    assert_eq!(all[0].id, 2);
    assert!(store.get(1).is_none());
    assert!(store.get(3).is_none());
}

#[test]
fn upload_bytes_decodes_utf8() {
    let mut store = PropertyStore::new();
    let text = format!("{}\n東京都,渋谷区,神南,1,2,3,タワー,1億,渋谷,マンション,80", HEADER);
    assert_eq!(store.upload_bytes(text.as_bytes()), Ok(0));
    let p = store.get(1).unwrap();
    assert_eq!(p.prefecture, "東京都");
    assert_eq!(p.land_area, "80");
}

#[test]
fn upload_bytes_refuses_invalid_utf8_and_keeps_contents() {
    let mut store = PropertyStore::new();
    store.upload(&rows(2, "x"));
    let mut bytes = rows(3, "y").into_bytes();
    bytes.push(0xff);
    assert_eq!(store.upload_bytes(&bytes), Err(UploadError::NotUtf8));
    let all = store.list_all();
    assert_eq!(all.len(), 2);
    assert_eq!(all[0].prefecture, "x0");
}

#[test]
fn replace_all_installs_given_records() {
    let mut store = PropertyStore::new();
    store.upload(&rows(3, "x"));
    let fresh = japanese_properties_api::csv::parse_csv(&rows(1, "z")).records;
    store.replace_all(fresh);
    assert_eq!(store.len(), 1);
    assert_eq!(store.get(1).unwrap().prefecture, "z0");
}
