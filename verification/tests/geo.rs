use parsitext::geo::{
    find_province_by_city, find_province_by_id, find_province_by_slug, get_all_provinces,
    get_cities_of_province, CITY_EN, CITY_FA, CITY_PROVINCE, N_CITIES,
};

#[test]
fn all_provinces_present() {
    assert_eq!(get_all_provinces().len(), 31);
}

#[test]
fn ids_are_dense_and_unique() {
    let mut ids: Vec<u32> = get_all_provinces().iter().map(|p| p.id).collect();
    ids.sort();
    ids.dedup();
    assert_eq!(ids, (1..=31).collect::<Vec<_>>());
}

#[test]
fn slugs_are_unique() {
    let mut slugs: Vec<&str> = get_all_provinces().iter().map(|p| p.slug).collect();
    slugs.sort();
    let n = slugs.len();
    slugs.dedup();
    assert_eq!(slugs.len(), n, "duplicate province slug");
}

#[test]
fn find_by_id_works() {
    let p = find_province_by_id(1).unwrap();
    assert_eq!(p.name_en, "Tehran");
}

#[test]
fn find_by_id_unknown() {
    assert!(find_province_by_id(99).is_none());
}

#[test]
fn find_by_slug_case_insensitive() {
    let p = find_province_by_slug("EAST-AZERBAIJAN").unwrap();
    assert_eq!(p.id, 8);
}

#[test]
fn find_by_city_capital() {
    assert_eq!(find_province_by_city("Tehran").unwrap().id, 1);
    assert_eq!(find_province_by_city("تهران").unwrap().id, 1);
}

#[test]
fn find_by_city_non_capital() {
    assert_eq!(find_province_by_city("Borujerd").unwrap().id, 14);
    assert_eq!(find_province_by_city("کاشان").unwrap().slug, "isfahan");
}

#[test]
fn find_by_city_unknown() {
    assert!(find_province_by_city("Atlantis").is_none());
    assert!(find_province_by_city("").is_none());
    assert!(find_province_by_city("   ").is_none());
}

#[test]
fn cities_of_province_includes_capital() {
    let cities = get_cities_of_province(19); // Fars
    assert!(cities.iter().any(|(en, _)| *en == "Shiraz"));
    assert!(cities.iter().any(|(_, fa)| *fa == "کازرون"));
}

#[test]
fn every_province_has_at_least_one_city() {
    for p in get_all_provinces() {
        let n = get_cities_of_province(p.id).len();
        assert!(n >= 1, "province {} has no cities", p.name_en);
    }
}

#[test]
fn city_province_ids_are_valid() {
    for i in 0..N_CITIES {
        let (_en, _fa, pid) = (CITY_EN[i], CITY_FA[i], CITY_PROVINCE[i]);
        assert!(find_province_by_id(pid).is_some(), "bad province id {pid}");
    }
}
