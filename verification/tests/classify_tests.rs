use count_tlgs::Category;
use count_tlgs::classify;
use count_tlgs::group_tlg;

#[test]
fn test_tlg() {
    assert_eq!(group_tlg("t_abc.out"), "table");
    assert_eq!(group_tlg("l_abc.out"), "listing");
    assert_eq!(group_tlg("g_abc.out"), "graph");
    assert_eq!(group_tlg("ll_abc.out"), "other");
}

#[test]
fn classify_is_total_on_short_names() {
    assert_eq!(group_tlg(""), "other");
    assert_eq!(group_tlg("t"), "other");
    assert_eq!(group_tlg("_"), "other");
    assert_eq!(group_tlg("xx"), "other");
}

#[test]
fn classify_reads_only_the_prefix() {
    assert_eq!(classify("t_x"), Category::Table);
    assert_eq!(classify("l_y"), Category::Listing);
    assert_eq!(classify("g_z"), Category::Graph);
    assert_eq!(classify("t_"), Category::Table);
    assert_eq!(classify("tx_abc.out"), Category::Other);
    assert_eq!(classify("eer_bla.out"), Category::Other);
}
