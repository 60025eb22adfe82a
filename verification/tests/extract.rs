use swordfish::extract::{
    parse_cards_from_calf_analysis, parse_cards_from_katana_kc_ow,
    parse_cards_from_katana_klu_lookup, parse_cards_from_katana_klu_results,
    parse_cards_from_qingque_atopwl, parse_u32, parse_u64, read_listing, squeeze, trim, Listing,
};
use swordfish::records::Character;
use swordfish::text::{remove_matches, split};

fn chars(s: &str) -> Vec<char> {
    s.chars().collect()
}

fn card(wishlist: u32, series: &str, name: &str) -> Character {
    Character {
        wishlist: Some(wishlist),
        name: name.to_string(),
        series: series.to_string(),
        last_update_ts: 0,
    }
}

#[test]
fn reads_decimal_numbers() {
    assert_eq!(parse_u32(&chars("0")), Some(0));
    assert_eq!(parse_u32(&chars("448")), Some(448));
    assert_eq!(parse_u32(&chars("+448")), Some(448));
    assert_eq!(parse_u32(&chars("007")), Some(7));
    assert_eq!(parse_u32(&chars("4294967295")), Some(4294967295));
    assert_eq!(parse_u32(&chars("4294967296")), None);
    assert_eq!(parse_u32(&chars("99999999999999999999999999")), None);
    assert_eq!(parse_u32(&chars("")), None);
    assert_eq!(parse_u32(&chars("+")), None);
    assert_eq!(parse_u32(&chars("-1")), None);
    assert_eq!(parse_u32(&chars("12a")), None);
    assert_eq!(parse_u32(&chars(" 12")), None);
    assert_eq!(parse_u32(&chars("++1")), None);
    assert_eq!(parse_u64(&chars("18446744073709551615")), Some(u64::MAX));
    assert_eq!(parse_u64(&chars("18446744073709551616")), None);
    assert_eq!(parse_u64(&chars("1149282293645717564")), Some(1149282293645717564));
}

#[test]
fn trims_and_squeezes_white_space() {
    assert_eq!(trim(&chars(" \t 12 3\n")), chars("12 3"));
    assert_eq!(trim(&chars("   ")), chars(""));
    assert_eq!(trim(&chars("\u{a0}x\u{3000}")), chars("x"));
    assert_eq!(squeeze(&chars(" 1 2\t3\n")), chars("123"));
}

#[test]
fn splits_at_every_separator() {
    assert_eq!(split(&chars("a, b, c"), &chars(", ")), vec![chars("a"), chars("b"), chars("c")]);
    assert_eq!(split(&chars(",a,"), &chars(",")), vec![chars(""), chars("a"), chars("")]);
    assert_eq!(split(&chars(""), &chars(",")), vec![chars("")]);
    assert_eq!(split(&chars("aaa"), &chars("aa")), vec![chars(""), chars("a")]);
    assert_eq!(remove_matches(&chars("**a**b*"), &chars("**")), chars("ab*"));
    assert_eq!(remove_matches(&chars("aaa"), &chars("aa")), chars("a"));
}

#[test]
fn reads_top_wishlist_board() {
    let content = "`1` \u{b7} `\u{2764}\u{fe0f}1,234` \u{b7} Frieren: Beyond Journey's End \u{b7} **Frieren**\n\
                   `2` \u{b7} `\u{2764}\u{fe0f}987 ` \u{b7} Re:Zero \u{b7} **Rem**\n\
                   no fields here\n\
                   `3` \u{b7} `\u{2764}\u{fe0f}many` \u{b7} Series \u{b7} **Name**\n\
                   `4` \u{b7} `\u{2764}\u{fe0f}5` \u{b7} Only Series"
        .to_string();
    assert_eq!(
        parse_cards_from_qingque_atopwl(&content),
        vec![card(1234, "Frieren: Beyond Journey's End", "Frieren"), card(987, "Re:Zero", "Rem")]
    );
}

#[test]
fn board_line_with_short_count_is_skipped() {
    let content = "`1` \u{b7} ` \u{b7} Series \u{b7} **Name**".to_string();
    assert_eq!(parse_cards_from_qingque_atopwl(&content), vec![]);
    assert_eq!(parse_cards_from_qingque_atopwl(&String::new()), vec![]);
}

#[test]
fn reads_collection() {
    let line1 = "\u{1f3f7} `\u{2661}123 ` \u{b7} `abc123` \u{b7} `\u{2605}\u{2605}` \u{b7} `#1234` \u{b7} `\u{25c8}2` \u{b7} Re:Zero \u{b7} **Rem**";
    let line2 = "~~\u{1f3f7} `\u{2661}45` \u{b7} `abc124` \u{b7} `\u{2605}` \u{b7} `#12` \u{b7} `\u{25c8}1` \u{b7} K-On! \u{b7} **Yui**~~";
    let line3 = "a line that does not end in bold";
    let line4 = "\u{1f3f7} `\u{2661}x` \u{b7} `abc125` \u{b7} `\u{2605}` \u{b7} `#12` \u{b7} `\u{25c8}1` \u{b7} Series \u{b7} **Name**";
    let content = format!("{}\n{}\n{}\n{}", line1, line2, line3, line4);
    assert_eq!(
        parse_cards_from_katana_kc_ow(&content),
        vec![card(123, "Re:Zero", "Rem"), card(45, "K-On!", "Yui")]
    );
}

#[test]
fn collection_of_another_order_ends_the_reading() {
    let wishlist = "\u{1f3f7} `\u{2661}123` \u{b7} `abc123` \u{b7} `\u{2605}` \u{b7} `#1` \u{b7} `\u{25c8}2` \u{b7} Re:Zero \u{b7} **Rem**";
    let by_print = "\u{1f3f7} `abc124` \u{b7} `\u{2605}` \u{b7} `#12` \u{b7} `\u{25c8}1` \u{b7} K-On! \u{b7} x \u{b7} **Yui**";
    let content = format!("{}\n{}\n{}", wishlist, by_print, wishlist);
    assert_eq!(parse_cards_from_katana_kc_ow(&content), vec![card(123, "Re:Zero", "Rem")]);
    let no_ticks = "plain \u{b7} a \u{b7} b \u{b7} c \u{b7} d \u{b7} e \u{b7} **f**".to_string();
    assert_eq!(parse_cards_from_katana_kc_ow(&no_ticks), vec![]);
}

#[test]
fn reads_search_results() {
    let content = "`1`. `\u{2661}448` \u{b7} Frieren: Beyond Journey's End \u{b7} **Frieren**\n\
                   `2`. `\u{2661}12 ` \u{b7} Series Two \u{b7} **Name Two**\n\
                   `3`. `` \u{b7} Series \u{b7} **Name**\n\
                   `4`. `\u{2661}9` \u{b7} Series without name**\n\
                   heading"
        .to_string();
    assert_eq!(
        parse_cards_from_katana_klu_results(&content),
        vec![card(448, "Frieren: Beyond Journey's End", "Frieren"), card(12, "Series Two", "Name Two")]
    );
}

#[test]
fn reads_lookup_card() {
    let content = "Character \u{b7} **Frieren**\n\
                   Series \u{b7} **Frieren: Beyond Journey's End**\n\
                   Total generated \u{b7} **12,345**\n\
                   Wishlisted \u{b7} **1,448**\n\
                   Wishlisted \u{b7} **7**"
        .to_string();
    assert_eq!(
        parse_cards_from_katana_klu_lookup(&content),
        Some(card(1448, "Frieren: Beyond Journey's End", "Frieren"))
    );
}

#[test]
fn lookup_card_that_lacks_a_part_gives_nothing() {
    for content in [
        "",
        "Character \u{b7} **Frieren**",
        "Character\nSeries \u{b7} **S**\nWishlisted \u{b7} **1**",
        "Character \u{b7} **F**\nSeries\nWishlisted \u{b7} **1**",
        "Character \u{b7} **F**\nSeries \u{b7} **S**\nTotal \u{b7} **1**",
        "Character \u{b7} **F**\nSeries \u{b7} **S**\nWishlisted",
        "Character \u{b7} **F**\nSeries \u{b7} **S**\nWishlisted \u{b7} **many**",
        "Character \u{b7} **F**\nSeries \u{b7} **S**\nWishlisted \u{b7} ** 1**",
    ] {
        assert_eq!(parse_cards_from_katana_klu_lookup(&content.to_string()), None);
    }
}

#[test]
fn reads_drop_analysis() {
    let content = "Apricot v6 Drop Analysis Engine\n\
                   heading\n\
                   1 `\u{2661}1,234` Re:Zero \u{b7} **Rem** (some note)\n\
                   2 `\u{2661}?` Series \u{b7} **Unknown**\n\
                   3 `\u{2661}56 ` K-On! \u{b7} **Yui [12-PRINT]**\n\
                   4 no tick here\n\
                   5 `\u{2661}7` Lonely series\n\
                   6 `\u{2661}8` Series \u{b7} **[9-PRINT]**"
        .to_string();
    assert_eq!(
        parse_cards_from_calf_analysis(&content),
        vec![card(1234, "Re:Zero", "Rem"), card(56, "K-On!", "Yui"), card(8, "Series", "")]
    );
}

#[test]
fn drop_analysis_skips_its_heading() {
    let line = "1 `\u{2661}5` Series \u{b7} **Name**";
    assert_eq!(parse_cards_from_calf_analysis(&line.to_string()), vec![]);
    assert_eq!(parse_cards_from_calf_analysis(&format!("{}\n{}", line, line)), vec![]);
    assert_eq!(
        parse_cards_from_calf_analysis(&format!("{}\n{}\n{}", line, line, line)),
        vec![card(5, "Series", "Name")]
    );
}

#[test]
fn listings_are_read_by_kind() {
    let line = "`1`. `\u{2661}448` \u{b7} Series \u{b7} **Name**";
    assert_eq!(read_listing(Listing::Results, line), vec![card(448, "Series", "Name")]);
    assert_eq!(read_listing(Listing::TopWishlist, line), vec![]);
}
