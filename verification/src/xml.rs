//! The `package.xml` manifest format.
use vstd::prelude::*;

use crate::strmap::SortedMap;
use crate::text::{
    clone_strings, lemma_sorted_unique, position_of, seq_le, sort_strings, sorted_seqs, string_of,
    views, wildcard_text,
};

verus! {

broadcast use {vstd::multiset::group_multiset_axioms, vstd::seq_lib::group_to_multiset_ensures};

/// What a manifest is generated from.
pub struct PackageXmlInput {
    /// Metadata type name to selected members, walked in ascending name order.
    pub types: SortedMap<Vec<String>>,
    pub api_version: String,
}

/// The text that stands for one character in escaped XML content.
pub open spec fn escaped_char(c: char) -> Seq<char> {
    if c == '<' {
        "&lt;"@
    } else if c == '>' {
        "&gt;"@
    } else if c == '&' {
        "&amp;"@
    } else if c == '\'' {
        "&apos;"@
    } else if c == '"' {
        "&quot;"@
    } else {
        seq![c]
    }
}

/// `s` with the XML special characters `<`, `>`, `&`, `'` and `"` replaced by entities.
pub open spec fn xml_escaped(s: Seq<char>) -> Seq<char>
    decreases s.len(),
{
    if s.len() == 0 {
        Seq::empty()
    } else {
        xml_escaped(s.drop_last()) + escaped_char(s.last())
    }
}

/// Escapes text for XML content.
///
/// Calls `quick_xml::escape::escape`, which replaces `<`, `>`, `&`, `'` and `"` by
/// `&lt;`, `&gt;`, `&amp;`, `&apos;` and `&quot;` and keeps every other character
/// (it scans bytes, and these five are ASCII, so no other character is touched).
#[verifier::external_body]
fn xml_escape(s: &str) -> (r: String)
    ensures
        r@ == xml_escaped(s@),
{
    quick_xml::escape::escape(s).into_owned()
}

/// `r` is `ms` in the manifest's member order: sorted, except that a wildcard `*`,
/// when present, comes first.
pub open spec fn arranged(ms: Seq<Seq<char>>, r: Seq<Seq<char>>) -> bool {
    &&& r.to_multiset() == ms.to_multiset()
    &&& if ms.contains(wildcard_text()) {
        r.len() > 0 && r[0] == wildcard_text() && sorted_seqs(r.drop_first())
    } else {
        sorted_seqs(r)
    }
}

/// The member list `ms` in manifest order.
pub open spec fn arrange(ms: Seq<Seq<char>>) -> Seq<Seq<char>> {
    choose|r: Seq<Seq<char>>| arranged(ms, r)
}

/// There is only one way to arrange a member list.
pub proof fn lemma_arranged_unique(ms: Seq<Seq<char>>, r1: Seq<Seq<char>>, r2: Seq<Seq<char>>)
    requires
        arranged(ms, r1),
        arranged(ms, r2),
    ensures
        r1 == r2,
{
    if ms.contains(wildcard_text()) {
        vstd::seq_lib::to_multiset_remove(r1, 0);
        vstd::seq_lib::to_multiset_remove(r2, 0);
        assert(r1.remove(0) =~= r1.drop_first());
        assert(r2.remove(0) =~= r2.drop_first());
        lemma_sorted_unique(r1.drop_first(), r2.drop_first());
        assert(r1 =~= seq![r1[0]] + r1.drop_first());
        assert(r2 =~= seq![r2[0]] + r2.drop_first());
    } else {
        lemma_sorted_unique(r1, r2);
    }
}

/// Sorts members alphabetically with `*` always first.
pub fn sort_members(members: &mut Vec<String>)
    ensures
        arranged(views(old(members)@), views(final(members)@)),
{
    let ghost ms = views(members@);
    let mut taken: Vec<String> = Vec::new();
    std::mem::swap(members, &mut taken);
    let mut sorted = sort_strings(taken);
    match position_of(&sorted, "*") {
        Some(pos) => {
            proof {
                assert(wildcard_text() == "*"@) by {
                    reveal_strlit("*");
                    assert("*"@ =~= seq!['*']);
                }
            }
            let ghost before = views(sorted@);
            let w = sorted.remove(pos);
            sorted.insert(0, w);
            proof {
                let after = views(sorted@);
                assert(after =~= before.remove(pos as int).insert(0, wildcard_text()));
                assert(after.drop_first() =~= before.remove(pos as int));
                vstd::seq_lib::to_multiset_remove(before, pos as int);
                vstd::seq_lib::to_multiset_insert(before.remove(pos as int), 0, wildcard_text());
                assert(after.to_multiset() =~= ms.to_multiset());
                assert(before.to_multiset().count(wildcard_text()) > 0);
                assert(ms.contains(wildcard_text()));
                assert forall|a: int, b: int|
                    0 <= a < b < after.drop_first().len() implies seq_le(
                    after.drop_first()[a],
                    after.drop_first()[b],
                ) by {
                    if b < pos {
                        assert(seq_le(before[a], before[b]));
                    } else if a < pos {
                        assert(seq_le(before[a], before[b + 1]));
                    } else {
                        assert(seq_le(before[a + 1], before[b + 1]));
                    }
                }
            }
        },
        None => {
            proof {
                assert(wildcard_text() == "*"@) by {
                    reveal_strlit("*");
                    assert("*"@ =~= seq!['*']);
                }
                vstd::seq_lib::to_multiset_contains(views(sorted@), wildcard_text());
                vstd::seq_lib::to_multiset_contains(ms, wildcard_text());
            }
        },
    }
    *members = sorted;
}

/// The line for one member.
pub open spec fn member_line(m: Seq<char>) -> Seq<char> {
    "\n        <members>"@ + xml_escaped(m) + "</members>"@
}

/// The member lines of a member list already in manifest order.
pub open spec fn member_lines(ms: Seq<Seq<char>>) -> Seq<char>
    decreases ms.len(),
{
    if ms.len() == 0 {
        Seq::empty()
    } else {
        member_lines(ms.drop_last()) + member_line(ms.last())
    }
}

/// The `<types>` block of one metadata type.
pub open spec fn type_block(name: Seq<char>, members: Seq<Seq<char>>) -> Seq<char> {
    "\n    <types>"@ + member_lines(arrange(members)) + "\n        <name>"@ + xml_escaped(name)
        + "</name>"@ + "\n    </types>"@
}

/// The `<types>` blocks, one per name, in the order given.
pub open spec fn type_blocks(names: Seq<Seq<char>>, members: Seq<Seq<Seq<char>>>) -> Seq<char>
    decreases names.len(),
{
    if names.len() == 0 || members.len() == 0 {
        Seq::empty()
    } else {
        type_blocks(names.drop_last(), members.drop_last()) + type_block(
            names.last(),
            members.last(),
        )
    }
}

/// The XML declaration and the opening `<Package>` tag.
pub open spec fn xml_head() -> Seq<char> {
    "<?xml version=\"1.0\" encoding=\"UTF-8\"?>\n<Package xmlns=\"http://soap.sforce.com/2006/04/metadata\">"@
}

/// The whole manifest: declaration, `<types>` blocks in the order given, `<version>`,
/// closing tag, trailing newline; four-space indent, LF line ends.
pub open spec fn package_xml_text(
    names: Seq<Seq<char>>,
    members: Seq<Seq<Seq<char>>>,
    version: Seq<char>,
) -> Seq<char> {
    xml_head() + type_blocks(names, members) + "\n    <version>"@ + xml_escaped(version)
        + "</version>"@ + "\n</Package>\n"@
}

/// The member lists of a selection map, as text.
pub open spec fn member_views(vals: Seq<Vec<String>>) -> Seq<Seq<Seq<char>>> {
    vals.map_values(|v: Vec<String>| views(v@))
}

/// Generates a `package.xml` string from the given input.
///
/// Format rules:
/// - XML declaration: `<?xml version="1.0" encoding="UTF-8"?>`
/// - `<types>` sorted by `<name>` alphabetically (case-sensitive, the map's order)
/// - Within `<types>`: `<members>` first, then `<name>`
/// - `<members>` sorted alphabetically; `*` always comes first
/// - Indent: 4 spaces, newline: LF, trailing newline present
pub fn generate_package_xml(input: &PackageXmlInput) -> (xml: String)
    requires
        input.types.wf(),
    ensures
        xml@ == package_xml_text(
            input.types.keys(),
            member_views(input.types.values()),
            input.api_version@,
        ),
{
    let ghost names = input.types.keys();
    let ghost members = member_views(input.types.values());
    let mut xml = string_of(
        "<?xml version=\"1.0\" encoding=\"UTF-8\"?>\n<Package xmlns=\"http://soap.sforce.com/2006/04/metadata\">",
    );
    let n = input.types.len();
    let mut i: usize = 0;
    assert(names.take(0) =~= Seq::<Seq<char>>::empty());
    while i < n
        invariant
            n == names.len(),
            names == input.types.keys(),
            members == member_views(input.types.values()),
            members.len() == names.len(),
            i <= n,
            xml@ == xml_head() + type_blocks(names.take(i as int), members.take(i as int)),
        decreases n - i,
    {
        let name = input.types.key_at(i);
        let mut sorted = clone_strings(input.types.value_at(i));
        let ghost ms = views(sorted@);
        assert(ms == members[i as int]);
        sort_members(&mut sorted);
        proof {
            lemma_arranged_unique(ms, views(sorted@), arrange(ms));
        }
        let ghost start = xml@;
        xml.append("\n    <types>");
        let mut j: usize = 0;
        assert(views(sorted@).take(0) =~= Seq::<Seq<char>>::empty());
        while j < sorted.len()
            invariant
                j <= sorted@.len(),
                xml@ == start + "\n    <types>"@ + member_lines(views(sorted@).take(j as int)),
            decreases sorted.len() - j,
        {
            xml.append("\n        <members>");
            let e = xml_escape(sorted[j].as_str());
            xml.append(e.as_str());
            xml.append("</members>");
            proof {
                let t = views(sorted@).take(j + 1);
                assert(t.drop_last() =~= views(sorted@).take(j as int));
                assert(t.last() == sorted@[j as int]@);
            }
            j = j + 1;
        }
        assert(views(sorted@).take(j as int) =~= views(sorted@));
        xml.append("\n        <name>");
        let e = xml_escape(name.as_str());
        xml.append(e.as_str());
        xml.append("</name>");
        xml.append("\n    </types>");
        proof {
            let nt = names.take(i + 1);
            let mt = members.take(i + 1);
            assert(nt.drop_last() =~= names.take(i as int));
            assert(mt.drop_last() =~= members.take(i as int));
            assert(nt.last() == name@);
            assert(mt.last() == ms);
            assert(xml@ =~= xml_head() + type_blocks(nt, mt));
        }
        i = i + 1;
    }
    assert(names.take(n as int) =~= names);
    assert(members.take(n as int) =~= members);
    xml.append("\n    <version>");
    let e = xml_escape(input.api_version.as_str());
    xml.append(e.as_str());
    xml.append("</version>");
    xml.append("\n</Package>\n");
    xml
}

} // verus!
