use unicode_tables::parse::uca_cldr::allkeys::{
    allkeys, lookup_longest_match, weights_trie, weights_trie_counted, weights_trie_decomposed,
    Weights,
};
use unicode_tables::parse::ucd::quick_checks::nfd_quick_checks;
use unicode_tables::parse::TableError;

const SOURCE: &str = "# a comment\n@version 15.1.0\n\n@implicitweights 17000..18AFF; FB00 # Tangut\n0418 0306 ; [.1D62.0020.0008] # CYRILLIC CAPITAL LETTER SHORT I\n0000  ; [.0000.0000.0000] # NULL (in 6429)\n0418  ; [.1D5E.0020.0008] # CYRILLIC CAPITAL LETTER I\n0009  ; [*0201.0020.0002] # <CHARACTER TABULATION>\n0FB2 0F71 0F80 ; [.2711.0020.0002][.2715.0020.0002] # TIBETAN\n";

#[test]
fn table_is_parsed_and_ordered_by_key_length() {
    let table = allkeys(SOURCE).unwrap();
    assert_eq!(table.len(), 5);
    assert_eq!(table[0].codes, vec![0x0000]);
    assert_eq!(table[1].codes, vec![0x0418]);
    assert_eq!(table[2].codes, vec![0x0009]);
    assert_eq!(table[3].codes, vec![0x0418, 0x0306]);
    assert_eq!(table[4].codes, vec![0x0FB2, 0x0F71, 0x0F80]);
    assert_eq!(
        table[2].weights,
        vec![Weights { l1: 0x0201, l2: 0x0020, l3: 0x0002, is_variable: true }]
    );
    assert_eq!(table[4].weights.len(), 2);
    assert_eq!(table[1].description, "CYRILLIC CAPITAL LETTER I");
}

#[test]
fn key_of_four_code_points_fails_the_build() {
    let r = allkeys("0041 0042 0043 0044 ; [.0001.0002.0003] # too long\n");
    assert_eq!(r.err(), Some(TableError::BadCodesLength));
}

#[test]
fn group_without_three_levels_fails_the_build() {
    let r = allkeys("0041 ; [.0001.0002] # two levels\n");
    assert_eq!(r.err(), Some(TableError::BadLevelCount));
}

#[test]
fn longest_match_prefers_the_pair() {
    let table = allkeys(SOURCE).unwrap();
    let trie = weights_trie(&table);
    let (weights, consumed) = lookup_longest_match(&trie, &[0x0418, 0x0306, 0x0041]).unwrap();
    assert_eq!(consumed, 2);
    assert_eq!(weights[0].l1, 0x1D62);
    let (weights, consumed) = lookup_longest_match(&trie, &[0x0418, 0x0041]).unwrap();
    assert_eq!(consumed, 1);
    assert_eq!(weights[0].l1, 0x1D5E);
    assert!(lookup_longest_match(&trie, &[0x0041]).is_none());
    // the key of three has no root, so it was dropped
    assert!(lookup_longest_match(&trie, &[0x0FB2, 0x0F71, 0x0F80]).is_none());
}

#[test]
fn formatted_round_trip() {
    let w = Weights { l1: 0x1C47, l2: 0x0020, l3: 0x0002, is_variable: false };
    assert_eq!(w.formatted(), "[.1C47.0020.0002]");
    let v = Weights { l1: 0xFFFF, l2: 0, l3: 0xABCD, is_variable: true };
    assert_eq!(v.formatted(), "[*FFFF.0000.ABCD]");
    let line = format!("0041 ; {}{} # x", w.formatted(), v.formatted());
    let table = allkeys(&line).unwrap();
    assert_eq!(table[0].weights, vec![w, v]);
}

#[test]
fn broken_lines_fail_the_build() {
    assert_eq!(allkeys("0041 ; [.0001.0002.0003]\n").err(), Some(TableError::MissingSeparator));
    assert_eq!(allkeys("0041 [.0001.0002.0003] # x\n").err(), Some(TableError::MissingSeparator));
    assert_eq!(allkeys("004G ; [.0001.0002.0003] # x\n").err(), Some(TableError::BadNumber));
    assert_eq!(allkeys("0041  0042 ; [.0001.0002.0003] # x\n").err(), Some(TableError::BadNumber));
    assert_eq!(allkeys("0041 ; [.0001.0002.10000] # x\n").err(), Some(TableError::BadNumber));
    assert_eq!(allkeys("0041 ; [.0001.+002.0003] # x\n").err(), Some(TableError::BadNumber));
    assert_eq!(allkeys("0041 ; [.0001.0002.0003.0004] # x\n").err(), Some(TableError::BadLevelCount));
    assert_eq!(
        allkeys("0041 ; [.0001.0002.0003][][.0001.0002.0003] # x\n").err(),
        Some(TableError::EmptyGroup)
    );
    assert_eq!(allkeys(" ;  # x\n").err(), Some(TableError::BadNumber));
}

#[test]
fn first_broken_line_decides() {
    let r = allkeys("0041 ; [.0001.0002.0003] # fine\n0042 ; [.0001.0002] # short\n004G ; [.1.2.3] # bad\n");
    assert_eq!(r.err(), Some(TableError::BadLevelCount));
}

#[test]
fn empty_source_gives_an_empty_table() {
    assert_eq!(allkeys("").unwrap().len(), 0);
    assert_eq!(allkeys("# only a comment\n\n@version 9\n").unwrap().len(), 0);
    let table = allkeys("").unwrap();
    let trie = weights_trie(&table);
    assert!(trie.is_empty());
    assert!(lookup_longest_match(&trie, &[]).is_none());
}

#[test]
fn default_table_keeps_the_order_of_the_source() {
    let table = unicode_tables::parse::uca::allkeys::allkeys(SOURCE).unwrap();
    let keys: Vec<Vec<u32>> = table.iter().map(|e| e.codes.clone()).collect();
    assert_eq!(
        keys,
        vec![vec![0x418, 0x306], vec![0], vec![0x418], vec![9], vec![0xFB2, 0xF71, 0xF80]]
    );
    assert_eq!(table[0].description, "CYRILLIC CAPITAL LETTER SHORT I");
    assert_eq!(table[3].weights[0].is_variable, true);
    assert_eq!(
        unicode_tables::parse::uca::allkeys::allkeys("0041 ; [.1.2] # x").err(),
        Some(TableError::BadLevelCount)
    );
}

#[test]
fn tree_holds_three_levels() {
    let source = "0FB2 ; [.0001.0020.0002] # a\n0FB2 0F71 ; [.0002.0020.0002] # b\n0FB2 0F71 0F80 ; [.0003.0020.0002] # c\n0FB2 0F80 ; [.0004.0020.0002] # d\n0F71 0F80 ; [.0005.0020.0002] # e\n0FB2 0F71 0F72 ; [.0006.0020.0002] # f\n0FB2 0F90 0F72 ; [.0007.0020.0002] # g\n";
    let table = allkeys(source).unwrap();
    let trie = weights_trie(&table);
    assert_eq!(trie.len(), 1);
    let root = &trie[&0x0FB2];
    assert_eq!(root.children_len(), 2);
    assert_eq!(root.children.as_ref().unwrap()[&0x0F71].children_len(), 2);
    assert_eq!(root.children.as_ref().unwrap()[&0x0F80].children_len(), 0);
    let found = |s: &[u32]| lookup_longest_match(&trie, s).map(|(w, n)| (w[0].l1, n));
    assert_eq!(found(&[0x0FB2, 0x0F71, 0x0F80, 0x41]), Some((3, 3)));
    assert_eq!(found(&[0x0FB2, 0x0F71, 0x0F72]), Some((6, 3)));
    assert_eq!(found(&[0x0FB2, 0x0F71, 0x0F73]), Some((2, 2)));
    assert_eq!(found(&[0x0FB2, 0x0F71]), Some((2, 2)));
    assert_eq!(found(&[0x0FB2, 0x0F80, 0x0F71]), Some((4, 2)));
    assert_eq!(found(&[0x0FB2, 0x0F90, 0x0F72]), Some((1, 1)));
    assert_eq!(found(&[0x0FB2]), Some((1, 1)));
    assert_eq!(found(&[0x0F71, 0x0F80]), None);
}

#[test]
fn later_entry_takes_the_place_of_an_equal_key() {
    let table = allkeys("0041 ; [.0001.0020.0002] # a\n0041 0042 ; [.0002.0020.0002] # b\n0041 0042 ; [.0003.0020.0002] # c\n").unwrap();
    let trie = weights_trie(&table);
    let (w, n) = lookup_longest_match(&trie, &[0x41, 0x42]).unwrap();
    assert_eq!((w[0].l1, n), (3, 2));
}

#[test]
fn tree_without_the_entries_that_decompose() {
    let checks = nfd_quick_checks("00C0..00C5    ; NFD_QC; N # L&   [6] LATIN CAPITAL LETTER A WITH GRAVE..\n").unwrap();
    let table = allkeys("0041 ; [.0001.0020.0002] # a\n00C0 ; [.0002.0020.0002] # b\n0041 00C5 ; [.0003.0020.0002] # c\n0041 0300 ; [.0004.0020.0002] # d\n").unwrap();
    let plain = weights_trie(&table);
    let filtered = weights_trie_decomposed(&table, &checks);
    assert!(lookup_longest_match(&plain, &[0xC0]).is_some());
    assert!(lookup_longest_match(&filtered, &[0xC0]).is_none());
    assert_eq!(lookup_longest_match(&plain, &[0x41, 0xC5]).unwrap().1, 2);
    assert_eq!(lookup_longest_match(&filtered, &[0x41, 0xC5]).unwrap().1, 1);
    assert_eq!(lookup_longest_match(&filtered, &[0x41, 0x300]).unwrap().1, 2);
}

#[test]
fn dropped_entries_are_counted() {
    let table = allkeys(SOURCE).unwrap();
    let (trie, dropped) = weights_trie_counted(&table);
    assert_eq!(dropped, 1);
    assert_eq!(trie.len(), 3);
    let source = "0FB2 ; [.0001.0020.0002] # a\n0FB2 0F71 ; [.0002.0020.0002] # b\n0F71 0F80 ; [.0005.0020.0002] # e\n0FB2 0F71 0F72 ; [.0006.0020.0002] # f\n0FB2 0F90 0F72 ; [.0007.0020.0002] # g\n";
    let table = allkeys(source).unwrap();
    assert_eq!(weights_trie_counted(&table).1, 2);
    let none = allkeys("0041 ; [.0001.0020.0002] # a\n0041 0042 ; [.0002.0020.0002] # b\n").unwrap();
    assert_eq!(weights_trie_counted(&none).1, 0);
}
