use japanese_properties_api::csv::parse_row;
use japanese_properties_api::property::Property;

fn property(row: &str, id: usize) -> Property {
    let cs: Vec<char> = row.chars().collect();
    parse_row(id, &cs).unwrap()
}

#[test]
fn full_address_uses_formal_markers() {
    let p = property("13,Shibuya,Jinnan,1,2,3,Tower A,5000,Shibuya Sta.,apartment,70", 1);
    assert_eq!(p.full_address(), "13ShibuyaJinnan1丁目2番地3号Tower A");
}

#[test]
fn full_address_with_empty_components() {
    let p = property(",,,,,,,,,,", 1);
    assert_eq!(p.full_address(), "丁目番地号");
}

#[test]
fn full_address_is_reproducible() {
    let p = property("東京都,渋谷区,神南,1,2,3,タワー,1億,渋谷,マンション,80", 1);
    let q = property("大阪府,北区,梅田,4,5,6,ビル,2億,梅田,オフィス,90", 2);
    let first = p.full_address();
    let _ = q.full_address();
    assert_eq!(p.full_address(), first);
    assert_eq!(first, "東京都渋谷区神南1丁目2番地3号タワー");
}

#[test]
fn full_address_ignores_id_and_other_columns() {
    let p = property("a,b,c,1,2,3,d,100,s1,house,50", 1);
    let q = property("a,b,c,1,2,3,d,999,s2,land,70", 9);
    assert_eq!(p.full_address(), q.full_address());
}

#[test]
fn present_copies_every_field() {
    let p = property("13,Shibuya,Jinnan,1,2,3,Tower A,5000,Shibuya Sta.,apartment,70", 7);
    let v = p.present();
    assert_eq!(v.id, 7);
    assert_eq!(v.full_address, "13ShibuyaJinnan1丁目2番地3号Tower A");
    assert_eq!(v.prefecture, "13");
    assert_eq!(v.city, "Shibuya");
    assert_eq!(v.town, "Jinnan");
    assert_eq!(v.chome, "1");
    assert_eq!(v.banchi, "2");
    assert_eq!(v.go, "3");
    assert_eq!(v.building, "Tower A");
    assert_eq!(v.price, "5000");
    assert_eq!(v.nearest_station, "Shibuya Sta.");
    assert_eq!(v.property_type, "apartment");
    assert_eq!(v.land_area, "70");
}

#[test]
fn duplicate_keeps_every_field() {
    let p = property("a,b,c,d,e,f,g,h,i,j,k", 3);
    let q = p.duplicate();
    assert_eq!(q.id, 3);
    assert_eq!(q.full_address(), p.full_address());
    assert_eq!(q.land_area, "k");
}
