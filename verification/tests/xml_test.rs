use sf_pkgen::strmap::SortedMap;
use sf_pkgen::xml::{generate_package_xml, sort_members, PackageXmlInput};

fn make_input(types: Vec<(&str, Vec<&str>)>, api_version: &str) -> PackageXmlInput {
    let mut map = SortedMap::new();
    for (name, members) in types {
        map.insert(
            name.to_string(),
            members.into_iter().map(|s| s.to_string()).collect(),
        );
    }
    PackageXmlInput {
        types: map,
        api_version: api_version.to_string(),
    }
}

#[test]
fn generates_xml_declaration() {
    let input = make_input(vec![("ApexClass", vec!["*"])], "62.0");
    let xml = generate_package_xml(&input);
    assert!(xml.starts_with("<?xml version=\"1.0\" encoding=\"UTF-8\"?>"));
}

#[test]
fn generates_package_element_with_namespace() {
    let input = make_input(vec![("ApexClass", vec!["*"])], "62.0");
    let xml = generate_package_xml(&input);
    assert!(xml.contains("<Package xmlns=\"http://soap.sforce.com/2006/04/metadata\">"));
}

#[test]
fn wildcard_member_only() {
    let input = make_input(vec![("ApexClass", vec!["*"])], "62.0");
    let xml = generate_package_xml(&input);
    assert!(xml.contains("<members>*</members>"));
    assert!(xml.contains("<name>ApexClass</name>"));
}

#[test]
fn individual_members_sorted() {
    let input = make_input(
        vec![("ApexClass", vec!["ContactService", "AccountController"])],
        "62.0",
    );
    let xml = generate_package_xml(&input);
    let ac_pos = xml.find("<members>AccountController</members>").unwrap();
    let cs_pos = xml.find("<members>ContactService</members>").unwrap();
    assert!(
        ac_pos < cs_pos,
        "AccountController should come before ContactService"
    );
}

#[test]
fn wildcard_always_first_among_members() {
    let input = make_input(vec![("ApexClass", vec!["AccountController", "*"])], "62.0");
    let xml = generate_package_xml(&input);
    let star_pos = xml.find("<members>*</members>").unwrap();
    let ac_pos = xml.find("<members>AccountController</members>").unwrap();
    assert!(star_pos < ac_pos, "* should come before AccountController");
}

#[test]
fn types_sorted_by_name() {
    let input = make_input(
        vec![("CustomObject", vec!["Account"]), ("ApexClass", vec!["*"])],
        "62.0",
    );
    let xml = generate_package_xml(&input);
    let apex_pos = xml.find("<name>ApexClass</name>").unwrap();
    let custom_pos = xml.find("<name>CustomObject</name>").unwrap();
    assert!(
        apex_pos < custom_pos,
        "ApexClass should come before CustomObject"
    );
}

#[test]
fn version_element_present() {
    let input = make_input(vec![("ApexClass", vec!["*"])], "62.0");
    let xml = generate_package_xml(&input);
    assert!(xml.contains("<version>62.0</version>"));
}

#[test]
fn trailing_newline() {
    let input = make_input(vec![("ApexClass", vec!["*"])], "62.0");
    let xml = generate_package_xml(&input);
    assert!(xml.ends_with('\n'));
}

#[test]
fn indent_is_four_spaces() {
    let input = make_input(vec![("ApexClass", vec!["*"])], "62.0");
    let xml = generate_package_xml(&input);
    assert!(xml.contains("\n    <types>"));
    assert!(xml.contains("\n        <members>"));
}

#[test]
fn members_then_name_order_within_types() {
    let input = make_input(vec![("ApexClass", vec!["Foo"])], "62.0");
    let xml = generate_package_xml(&input);
    let members_pos = xml.find("<members>Foo</members>").unwrap();
    let name_pos = xml.find("<name>ApexClass</name>").unwrap();
    assert!(
        members_pos < name_pos,
        "<members> should come before <name>"
    );
}

#[test]
fn multiple_types_with_mixed_members() {
    let input = make_input(
        vec![
            ("ApexClass", vec!["*"]),
            ("Report", vec!["SalesReport", "MarketingReport"]),
        ],
        "61.0",
    );
    let xml = generate_package_xml(&input);
    assert!(xml.contains("<members>*</members>"));
    let mr_pos = xml.find("<members>MarketingReport</members>").unwrap();
    let sr_pos = xml.find("<members>SalesReport</members>").unwrap();
    assert!(mr_pos < sr_pos);
    assert!(xml.contains("<version>61.0</version>"));
}

#[test]
fn full_xml_snapshot() {
    let input = make_input(
        vec![
            ("ApexClass", vec!["*"]),
            ("CustomObject", vec!["Account", "Contact"]),
        ],
        "62.0",
    );
    let xml = generate_package_xml(&input);
    let expected = "\
<?xml version=\"1.0\" encoding=\"UTF-8\"?>
<Package xmlns=\"http://soap.sforce.com/2006/04/metadata\">
    <types>
        <members>*</members>
        <name>ApexClass</name>
    </types>
    <types>
        <members>Account</members>
        <members>Contact</members>
        <name>CustomObject</name>
    </types>
    <version>62.0</version>
</Package>
";
    assert_eq!(xml, expected);
}

#[test]
fn special_characters_are_escaped() {
    let input = make_input(vec![("CustomObject", vec!["A&B<C>"])], "62.0");
    let xml = generate_package_xml(&input);
    assert!(xml.contains("<members>A&amp;B&lt;C&gt;</members>"), "{xml}");
}

#[test]
fn no_types_gives_version_only() {
    let input = make_input(vec![], "62.0");
    let xml = generate_package_xml(&input);
    assert_eq!(
        xml,
        "<?xml version=\"1.0\" encoding=\"UTF-8\"?>\n<Package xmlns=\"http://soap.sforce.com/2006/04/metadata\">\n    <version>62.0</version>\n</Package>\n"
    );
}

// -- sort_members --

#[test]
fn sort_members_with_wildcard() {
    let mut members = vec!["Zebra".to_string(), "*".to_string(), "Alpha".to_string()];
    sort_members(&mut members);
    assert_eq!(members, vec!["*", "Alpha", "Zebra"]);
}

#[test]
fn sort_members_without_wildcard() {
    let mut members = vec!["Zebra".to_string(), "Alpha".to_string()];
    sort_members(&mut members);
    assert_eq!(members, vec!["Alpha", "Zebra"]);
}

#[test]
fn sort_members_empty() {
    let mut members: Vec<String> = vec![];
    sort_members(&mut members);
    assert!(members.is_empty());
}

#[test]
fn sort_members_uses_byte_order() {
    let mut members = vec!["b".to_string(), "B".to_string(), "a".to_string()];
    sort_members(&mut members);
    assert_eq!(members, vec!["B", "a", "b"]);
}
