use vstd::prelude::*;

verus! {

/// Character-wise string equality.
pub fn str_eq(a: &str, b: &str) -> (r: bool)
    ensures
        r == (a@ == b@),
{
    let na = a.unicode_len();
    let nb = b.unicode_len();
    if na != nb {
        proof {
            if a@ == b@ {
                assert(a@.len() == b@.len());
            }
        }
        return false;
    }
    for i in 0..na
        invariant
            na == a@.len(),
            na == b@.len(),
            forall|j: int| 0 <= j < i ==> a@[j] == b@[j],
    {
        if a.get_char(i) != b.get_char(i) {
            proof {
                if a@ == b@ {
                    assert(a@[i as int] == b@[i as int]);
                }
            }
            return false;
        }
    }
    proof {
        assert(a@ =~= b@);
    }
    true
}

/// The badge color an urgency maps to: red for urgent, green for low, and
/// the default yellow otherwise.
pub open spec fn spec_urgency_color(u: Seq<char>) -> Seq<char> {
    if u == "PILNE"@ {
        "#dc3545"@
    } else if u == "NIEPILNE"@ {
        "#28a745"@
    } else {
        "#ffc107"@
    }
}

/// The HTML badge rendered for an urgency label.
pub open spec fn spec_urgency_badge(u: Seq<char>) -> Seq<char> {
    "<span style=\"background-color: "@ + spec_urgency_color(u)
        + "; color: white; padding: 4px 8px; border-radius: 4px; font-size: 12px; font-weight: bold;\">"@
        + u + "</span>"@
}

/// Render the HTML badge for an urgency label.
pub fn generate_urgency_badge(urgency: &str) -> (r: String)
    ensures
        r@ == spec_urgency_badge(urgency@),
{
    let mut s = String::from_str("<span style=\"background-color: ");
    if str_eq(urgency, "PILNE") {
        s.append("#dc3545");
    } else if str_eq(urgency, "NIEPILNE") {
        s.append("#28a745");
    } else {
        s.append("#ffc107");
    }
    s.append(
        "; color: white; padding: 4px 8px; border-radius: 4px; font-size: 12px; font-weight: bold;\">",
    );
    s.append(urgency);
    s.append("</span>");
    s
}

/// The subject-line prefix an urgency maps to.
pub open spec fn spec_subject_prefix(u: Seq<char>) -> Seq<char> {
    if u == "PILNE"@ {
        "[PILNE]"@
    } else if u == "NIEPILNE"@ {
        "[NIEPILNE]"@
    } else {
        "[NORMALNE]"@
    }
}

/// The subject-line prefix for an urgency label.
pub fn get_subject_prefix(urgency: &str) -> (r: &'static str)
    ensures
        r@ == spec_subject_prefix(urgency@),
{
    if str_eq(urgency, "PILNE") {
        "[PILNE]"
    } else if str_eq(urgency, "NIEPILNE") {
        "[NIEPILNE]"
    } else {
        "[NORMALNE]"
    }
}

/// The most urgent label among the batch analyses: urgent beats normal
/// beats low, and an empty list is low.
pub open spec fn spec_max_urgency(us: Seq<Seq<char>>) -> Seq<char> {
    if us.contains("PILNE"@) {
        "PILNE"@
    } else if us.contains("NORMALNE"@) {
        "NORMALNE"@
    } else {
        "NIEPILNE"@
    }
}

/// The most urgent label among the given urgencies.
pub fn max_urgency(urgencies: &Vec<String>) -> (r: String)
    ensures
        r@ == spec_max_urgency(urgencies@.map_values(|s: String| s@)),
{
    let ghost us = urgencies@.map_values(|s: String| s@);
    let n = urgencies.len();
    let mut has_urgent = false;
    let mut has_normal = false;
    for i in 0..n
        invariant
            n == urgencies@.len(),
            us == urgencies@.map_values(|s: String| s@),
            has_urgent ==> us.contains("PILNE"@),
            !has_urgent ==> forall|j: int| 0 <= j < i ==> us[j] != "PILNE"@,
            has_normal ==> us.contains("NORMALNE"@),
            !has_normal ==> forall|j: int| 0 <= j < i ==> us[j] != "NORMALNE"@,
    {
        if str_eq(urgencies[i].as_str(), "PILNE") {
            has_urgent = true;
            proof {
                assert(us[i as int] == "PILNE"@);
            }
        }
        if str_eq(urgencies[i].as_str(), "NORMALNE") {
            has_normal = true;
            proof {
                assert(us[i as int] == "NORMALNE"@);
            }
        }
    }
    proof {
        if !has_urgent && us.contains("PILNE"@) {
            let j = choose|j: int| 0 <= j < us.len() && us[j] == "PILNE"@;
        }
        if !has_normal && us.contains("NORMALNE"@) {
            let j = choose|j: int| 0 <= j < us.len() && us[j] == "NORMALNE"@;
        }
    }
    if has_urgent {
        String::from_str("PILNE")
    } else if has_normal {
        String::from_str("NORMALNE")
    } else {
        String::from_str("NIEPILNE")
    }
}

/// What markdown bold formatting renders to; a function of the input text
/// alone.
pub uninterp spec fn bold_markup_of(s: Seq<char>) -> Seq<char>;

/// Relies on `regex::Regex::new` over the fixed bold pattern (which never
/// fails on this constant) and `regex::Regex::replace_all`: every `**text**`
/// span becomes `<strong>text</strong>`, leftmost first; the result depends
/// on the input text alone.
#[verifier::external_body]
pub fn format_markdown(text: &str) -> (r: String)
    ensures
        r@ == bold_markup_of(text@),
{
    let re = regex::Regex::new("\\*\\*([^*]+)\\*\\*").unwrap();
    re.replace_all(text, "<strong>$1</strong>").to_string()
}

} // verus!
