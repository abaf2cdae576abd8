use z_sv::ZSV;

#[test]
fn test_find_string() -> Result<(), ()> {
    let corpus: ZSV = ZSV::from("Lorem ipsum dolor sit amet, consectetur 
                                    adipiscing elit. Duis vestibulum iaculis
                                    orci ut laoreet. Nulla hendrerit sed nisl
                                    nec tempor. Curabitur vitae tempus lorem,
                                    quis mollis velit. Morbi pellentesque 
                                    sodales turpis a vestibulum. Donec quis 
                                    justo sed odio sodales bibendum in 
                                    pellentesque erat. Pellentesque habitant 
                                    morbi tristique senectus et netus et 
                                    malesuada fames ac turpis egestas. 
                                    Vestibulum tincidunt libero non vestibulum 
                                    ultricies. Cras quis mi nunc. Donec vitae 
                                    tortor cursus lacus aliquam aliquam nec 
                                    gravida augue. Fusce iaculis est et est 
                                    fermentum fringilla. Sed vestibulum arcu 
                                    odio, at tristique nibh imperdiet vitae. 
                                    Curabitur sed velit molestie leo mollis 
                                    interdum sed id nunc. Sed sagittis 
                                    scelerisque tincidunt.");
    let text_to_find: ZSV = ZSV::from("et");
    let loc = corpus.find_string(&text_to_find);
    if let Some(loc) = loc {
        if loc != 24 {
            return Err(());
        } else {
            return Ok(());
        }
    } else {
        return Err(());
    }
}

#[test]
fn test_rfind_string() -> Result<(), ()> {
    let corpus: ZSV = ZSV::from("Lorem ipsum dolor sit amet, consectetur 
                                    adipiscing elit. Duis vestibulum iaculis
                                    orci ut laoreet. Nulla hendrerit sed nisl
                                    nec tempor. Curabitur vitae tempus lorem,
                                    quis mollis velit. Morbi pellentesque 
                                    sodales turpis a vestibulum. Donec quis 
                                    justo sed odio sodales bibendum in 
                                    pellentesque erat. Pellentesque habitant 
                                    morbi tristique senectus et netus et 
                                    malesuada fames ac turpis egestas. 
                                    Vestibulum tincidunt libero non vestibulum 
                                    ultricies. Cras quis mi nunc. Donec vitae 
                                    tortor cursus lacus aliquam aliquam nec 
                                    gravida augue. Fusce iaculis est et est 
                                    fermentum fringilla. Sed vestibulum arcu 
                                    odio, at tristique nibh imperdiet vitae. 
                                    Curabitur sed velit molestie leo mollis 
                                    interdum sed id nunc. Sed sagittis 
                                    scelerisque tincidunt.");
    let text_to_find: ZSV = ZSV::from("et");
    let loc = corpus.rfind_string(&text_to_find);
    if let Some(loc) = loc {
        if loc != 1180 {
            return Err(());
        } else {
            return Ok(());
        }
    } else {
        return Err(());
    }
}

#[test]
fn find_char_returns_first_occurrence() {
    let h = ZSV::from("abcba");
    assert_eq!(h.find_char('b'), Some(1));
    assert_eq!(h.find_char('a'), Some(0));
    assert_eq!(h.find_char('c'), Some(2));
    assert_eq!(h.find_char('x'), None);
    assert_eq!(ZSV::from("").find_char('a'), None);
}

#[test]
fn rfind_char_off_by_one_counting() {
    // The backward scan seeds its counter with the character length and
    // returns it before adjusting for the match, so the last 'b' of
    // "abcba" (zero-based position 3) reports index 4.
    let h = ZSV::from("abcba");
    assert_eq!(h.rfind_char('b'), Some(4));
    assert_eq!(h.rfind_char('a'), Some(5));
    assert_eq!(h.rfind_char('c'), Some(3));
    assert_eq!(h.rfind_char('x'), None);
    assert_eq!(ZSV::from("").rfind_char('a'), None);
}

#[test]
fn find_string_empty_needle_is_zero() {
    let needle = ZSV::from("");
    assert_eq!(ZSV::from("abc").find_string(&needle), Some(0));
    assert_eq!(ZSV::from("").find_string(&needle), Some(0));
}

#[test]
fn rfind_string_empty_needle_asymmetry() {
    let needle = ZSV::from("");
    assert_eq!(ZSV::from("abc").rfind_string(&needle), Some(2));
    assert_eq!(ZSV::from("").rfind_string(&needle), None);
}

#[test]
fn long_needle_is_absent() {
    let h = ZSV::from("abc");
    let n = ZSV::from("abcd");
    assert_eq!(h.find_string(&n), None);
    assert_eq!(h.rfind_string(&n), None);
}

#[test]
fn find_string_first_and_last_occurrence() {
    let h = ZSV::from("abab");
    let n = ZSV::from("ab");
    assert_eq!(h.find_string(&n), Some(0));
    assert_eq!(h.rfind_string(&n), Some(2));
    let m = ZSV::from("ba");
    assert_eq!(h.find_string(&m), Some(1));
    assert_eq!(h.rfind_string(&m), Some(1));
    let absent = ZSV::from("bb");
    assert_eq!(h.find_string(&absent), None);
    assert_eq!(h.rfind_string(&absent), None);
}

#[test]
fn search_counts_characters_not_bytes() {
    let h = ZSV::from("h\u{e9}llo");
    assert_eq!(h.find_char('l'), Some(2));
    assert_eq!(h.find_char('\u{e9}'), Some(1));
    assert_eq!(h.rfind_char('l'), Some(4));
    let n = ZSV::from("llo");
    assert_eq!(h.find_string(&n), Some(2));
    assert_eq!(h.rfind_string(&n), Some(2));
}
