//! The private metadata that every output file carries.

use vstd::prelude::*;
use vstd::string::*;
use crate::text::{contains_text, stands_at};

verus! {

/// A lower-case hexadecimal digit.
pub open spec fn hex_digit(d: int) -> char {
    if d < 10 {
        (d + 0x30) as char
    } else {
        (d - 10 + 0x61) as char
    }
}

/// How one character stands inside a JSON string.
pub open spec fn json_escaped(c: char) -> Seq<char> {
    if c == '"' {
        seq!['\\', '"']
    } else if c == '\\' {
        seq!['\\', '\\']
    } else if c as int == 0x08 {
        seq!['\\', 'b']
    } else if c as int == 0x09 {
        seq!['\\', 't']
    } else if c as int == 0x0a {
        seq!['\\', 'n']
    } else if c as int == 0x0c {
        seq!['\\', 'f']
    } else if c as int == 0x0d {
        seq!['\\', 'r']
    } else if (c as int) < 0x20 {
        seq!['\\', 'u', '0', '0', hex_digit(c as int / 16), hex_digit(c as int % 16)]
    } else {
        seq![c]
    }
}

/// The characters of `s`, each as it stands inside a JSON string.
pub open spec fn json_escaped_all(s: Seq<char>) -> Seq<char>
    decreases s.len(),
{
    if s.len() == 0 {
        Seq::empty()
    } else {
        json_escaped_all(s.drop_last()) + json_escaped(s.last())
    }
}

/// The JSON string literal for `s`.
pub open spec fn json_quoted(s: Seq<char>) -> Seq<char> {
    seq!['"'] + json_escaped_all(s) + seq!['"']
}

/// Calls `serde_json`'s `Display` for a string value: the text between double quotes, with the
/// quote, the backslash and the control characters below the space escaped, the rest as it is.
#[verifier::external_body]
pub(crate) fn json_string(s: &str) -> (r: String)
    ensures
        r@ == json_quoted(s@),
{
    serde_json::Value::from(s).to_string()
}

/// Metadata that is embedded in every output.
#[derive(Debug, Clone)]
pub struct PrivateMeta {
    /// Name of the document format.
    pub tyx: String,
    /// Name of the renderer.
    pub candy: String,
    /// Version of the renderer.
    pub version: String,
    /// Code name of that version.
    pub codename: String,
    /// Free text.
    pub secret: String,
}

/// The value of a [`PrivateMeta`].
pub struct PrivateMetaView {
    pub tyx: Seq<char>,
    pub candy: Seq<char>,
    pub version: Seq<char>,
    pub codename: Seq<char>,
    pub secret: Seq<char>,
}

impl View for PrivateMeta {
    type V = PrivateMetaView;

    open spec fn view(&self) -> PrivateMetaView {
        PrivateMetaView {
            tyx: self.tyx@,
            candy: self.candy@,
            version: self.version@,
            codename: self.codename@,
            secret: self.secret@,
        }
    }
}

impl PrivateMetaView {
    /// The compact JSON object with the five fields in order.
    pub open spec fn json(self) -> Seq<char> {
        "{\"tyx\":"@ + json_quoted(self.tyx) + ",\"candy\":"@ + json_quoted(self.candy)
            + ",\"version\":"@ + json_quoted(self.version) + ",\"codename\":"@ + json_quoted(
            self.codename,
        ) + ",\"secret\":"@ + json_quoted(self.secret) + "}"@
    }
}

/// The metadata of a new scene.
pub open spec fn default_meta() -> PrivateMetaView {
    PrivateMetaView {
        tyx: ""@,
        candy: ""@,
        version: "0.1.0"@,
        codename: "Orange Candy"@,
        secret: ""@,
    }
}

impl Default for PrivateMeta {
    fn default() -> (r: PrivateMeta)
        ensures
            r@ == default_meta(),
    {
        PrivateMeta {
            tyx: "".to_owned(),
            candy: "".to_owned(),
            version: "0.1.0".to_owned(),
            codename: "Orange Candy".to_owned(),
            secret: "".to_owned(),
        }
    }
}

impl PrivateMeta {
    /// The metadata as one compact JSON object.
    pub fn to_json(&self) -> (r: String)
        ensures
            r@ == self@.json(),
    {
        let mut r = "{\"tyx\":".to_owned();
        r.append(json_string(self.tyx.as_str()).as_str());
        r.append(",\"candy\":");
        r.append(json_string(self.candy.as_str()).as_str());
        r.append(",\"version\":");
        r.append(json_string(self.version.as_str()).as_str());
        r.append(",\"codename\":");
        r.append(json_string(self.codename.as_str()).as_str());
        r.append(",\"secret\":");
        r.append(json_string(self.secret.as_str()).as_str());
        r.append("}");
        r
    }
}

// ---------------------------------------------------------------- laws

/// Whether a JSON object holds a string under a key: the key between quotes, a colon, and the
/// string as a literal.
pub open spec fn holds_field(json: Seq<char>, key: Seq<char>, value: Seq<char>) -> bool {
    contains_text(json, seq!['"'] + key + seq!['"', ':'] + json_quoted(value))
}

proof fn lemma_field(
    front: Seq<char>,
    mark: Seq<char>,
    lead: char,
    key: Seq<char>,
    value: Seq<char>,
    back: Seq<char>,
)
    requires
        mark == seq![lead, '"'] + key + seq!['"', ':'],
    ensures
        holds_field(front + mark + json_quoted(value) + back, key, value),
{
    let part = seq!['"'] + key + seq!['"', ':'] + json_quoted(value);
    let whole = front + mark + json_quoted(value) + back;
    let k = front.len() as int + 1;
    assert(whole.subrange(k, k + part.len()) =~= part);
    assert(stands_at(whole, part, k));
}

/// The metadata hold each of their fields under its own name.
pub proof fn law_metadata_fields(m: PrivateMetaView)
    ensures
        holds_field(m.json(), "tyx"@, m.tyx),
        holds_field(m.json(), "candy"@, m.candy),
        holds_field(m.json(), "version"@, m.version),
        holds_field(m.json(), "codename"@, m.codename),
        holds_field(m.json(), "secret"@, m.secret),
{
    let a = "{\"tyx\":"@;
    let b = ",\"candy\":"@;
    let c = ",\"version\":"@;
    let d = ",\"codename\":"@;
    let e = ",\"secret\":"@;
    let z = "}"@;
    let (qa, qb, qc, qd, qe) = (
        json_quoted(m.tyx),
        json_quoted(m.candy),
        json_quoted(m.version),
        json_quoted(m.codename),
        json_quoted(m.secret),
    );
    let none = Seq::<char>::empty();
    let all = m.json();
    lemma_marks();
    let back5 = z;
    let back4 = e + qe + back5;
    let back3 = d + qd + back4;
    let back2 = c + qc + back3;
    let back1 = b + qb + back2;
    assert(all =~= none + a + qa + back1);
    assert(all =~= (a + qa) + b + qb + back2);
    assert(all =~= (a + qa + b + qb) + c + qc + back3);
    assert(all =~= (a + qa + b + qb + c + qc) + d + qd + back4);
    assert(all =~= (a + qa + b + qb + c + qc + d + qd) + e + qe + back5);
    lemma_field(none, a, '{', "tyx"@, m.tyx, back1);
    lemma_field(a + qa, b, ',', "candy"@, m.candy, back2);
    lemma_field(a + qa + b + qb, c, ',', "version"@, m.version, back3);
    lemma_field(a + qa + b + qb + c + qc, d, ',', "codename"@, m.codename, back4);
    lemma_field(a + qa + b + qb + c + qc + d + qd, e, ',', "secret"@, m.secret, back5);
}

proof fn lemma_marks()
    ensures
        "{\"tyx\":"@ == seq!['{', '"'] + "tyx"@ + seq!['"', ':'],
        ",\"candy\":"@ == seq![',', '"'] + "candy"@ + seq!['"', ':'],
        ",\"version\":"@ == seq![',', '"'] + "version"@ + seq!['"', ':'],
        ",\"codename\":"@ == seq![',', '"'] + "codename"@ + seq!['"', ':'],
        ",\"secret\":"@ == seq![',', '"'] + "secret"@ + seq!['"', ':'],
{
    reveal_strlit("{\"tyx\":");
    reveal_strlit(",\"candy\":");
    reveal_strlit(",\"version\":");
    reveal_strlit(",\"codename\":");
    reveal_strlit(",\"secret\":");
    reveal_strlit("tyx");
    reveal_strlit("candy");
    reveal_strlit("version");
    reveal_strlit("codename");
    reveal_strlit("secret");
    assert("{\"tyx\":"@ =~= seq!['{', '"'] + "tyx"@ + seq!['"', ':']);
    assert(",\"candy\":"@ =~= seq![',', '"'] + "candy"@ + seq!['"', ':']);
    assert(",\"version\":"@ =~= seq![',', '"'] + "version"@ + seq!['"', ':']);
    assert(",\"codename\":"@ =~= seq![',', '"'] + "codename"@ + seq!['"', ':']);
    assert(",\"secret\":"@ =~= seq![',', '"'] + "secret"@ + seq!['"', ':']);
}

} // verus!
