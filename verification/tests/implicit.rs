use unicode_tables::parse::uca_cldr::allkeys::{
    allkeys_with_implicit, lookup_longest_match, weights_trie, Weights,
};
use unicode_tables::parse::uca_cldr::implicit::{family, implicit_weights, ImplicitFamily};

fn pair(code: u32) -> (u16, u16) {
    let w = implicit_weights(code);
    assert_eq!(w.len(), 2);
    assert_eq!((w[0].l2, w[0].l3, w[0].is_variable), (0x0020, 0x0002, false));
    assert_eq!((w[1].l2, w[1].l3, w[1].is_variable), (0, 0, false));
    (w[0].l1, w[1].l1)
}

#[test]
fn tangut_weights() {
    assert_eq!(pair(0x17000), (0xFB00, 0x8000));
    assert_eq!(pair(0x17001), (0xFB00, 0x8001));
    assert_eq!(pair(0x18AFF), (0xFB00, 0x9AFF));
    assert_eq!(pair(0x18D00), (0xFB00, 0x9D00));
    assert_eq!(pair(0x18D8F), (0xFB00, 0x9D8F));
}

#[test]
fn nushu_and_khitan_weights() {
    assert_eq!(pair(0x1B170), (0xFB01, 0x8000));
    assert_eq!(pair(0x1B2FF), (0xFB01, 0x818F));
    assert_eq!(pair(0x18B00), (0xFB02, 0x8000));
    assert_eq!(pair(0x18CFF), (0xFB02, 0x81FF));
}

#[test]
fn han_weights() {
    assert_eq!(pair(0x4E00), (0xFB40, 0xCE00));
    assert_eq!(pair(0x9FFF), (0xFB41, 0x9FFF));
    assert_eq!(pair(0x3400), (0xFB80, 0xB400));
    assert_eq!(pair(0x20000), (0xFB84, 0x8000));
    assert_eq!(pair(0x323AF), (0xFB86, 0xA3AF));
}

#[test]
fn weights_of_any_other_code_point() {
    assert_eq!(pair(0x0041), (0xFBC0, 0x8041));
    assert_eq!(pair(0x2EBF0), (0xFBC5, 0xEBF0));
    assert_eq!(pair(0x10FFFF), (0xFBE1, 0xFFFF));
    assert_eq!(pair(0), (0xFBC0, 0x8000));
}

#[test]
fn families_by_range() {
    assert_eq!(family(0x16FFF), ImplicitFamily::Unassigned);
    assert_eq!(family(0x17000), ImplicitFamily::Tangut);
    assert_eq!(family(0x18B00), ImplicitFamily::Khitan);
    assert_eq!(family(0x18D00), ImplicitFamily::Tangut);
    assert_eq!(family(0x18D90), ImplicitFamily::Unassigned);
    assert_eq!(family(0x1B170), ImplicitFamily::Nushu);
    assert_eq!(family(0x4DBF), ImplicitFamily::OtherHan);
    assert_eq!(family(0x4DC0), ImplicitFamily::Unassigned);
    assert_eq!(family(0x4E00), ImplicitFamily::CoreHan);
    assert_eq!(family(0xA000), ImplicitFamily::Unassigned);
    assert_eq!(family(0x2A6E0), ImplicitFamily::Unassigned);
    assert_eq!(family(0x31350), ImplicitFamily::OtherHan);
    assert_eq!(family(0xFFFF_FFFF), ImplicitFamily::Unassigned);
}

#[test]
fn table_is_extended_for_assigned_code_points() {
    let source = "0041 0301 ; [.0001.0002.0003] # pair\n0041 ; [.1C47.0020.0008] # LATIN CAPITAL LETTER A\n";
    // 18D09 lies in a range with implicit weights and is given as assigned;
    // 0042 is assigned and has no implicit weights
    let table = allkeys_with_implicit(source, &[0x0042, 0x17000, 0x18D09, 0x4E00]).unwrap();
    let keys: Vec<Vec<u32>> = table.iter().map(|e| e.codes.clone()).collect();
    assert_eq!(keys, vec![vec![0x41], vec![0x17000], vec![0x18D09], vec![0x4E00], vec![0x41, 0x301]]);
    assert_eq!(
        table[1].weights,
        vec![
            Weights { l1: 0xFB00, l2: 0x0020, l3: 0x0002, is_variable: false },
            Weights { l1: 0x8000, l2: 0, l3: 0, is_variable: false },
        ]
    );
    assert_eq!(table[1].description, "");
    let trie = weights_trie(&table);
    let (weights, consumed) = lookup_longest_match(&trie, &[0x4E00, 0x41]).unwrap();
    assert_eq!(consumed, 1);
    assert_eq!((weights[0].l1, weights[1].l1), (0xFB40, 0xCE00));
    assert!(lookup_longest_match(&trie, &[0x17001]).is_none());
}

#[test]
fn listed_code_point_keeps_its_weights() {
    let source = "4E00 ; [.1234.0020.0002] # listed\n";
    let table = allkeys_with_implicit(source, &[0x4E00, 0x4E01]).unwrap();
    let keys: Vec<Vec<u32>> = table.iter().map(|e| e.codes.clone()).collect();
    assert_eq!(keys, vec![vec![0x4E00], vec![0x4E01]]);
    assert_eq!(table[0].weights.len(), 1);
    assert_eq!(table[0].weights[0].l1, 0x1234);
    assert_eq!(table[1].weights[0].l1, 0xFB40);
    assert_eq!(table[1].weights[1].l1, 0xCE01);
}
