//! A small text format for records: `{key:value,key:value,...}`, and the
//! user record written in it.
use vstd::prelude::*;
use vstd::string::*;
use crate::strsplit::{first_match, join, lemma_find_seq, occurs_at, pieces_spec, split_rest, StrSplit};
use crate::text::{
    decimal_text, is_ws, lemma_trim_bounds, parse_u32, str_chars, str_eq, trim, trim_str,
    u32_of_text, u32_to_text, law_u32_text_roundtrip, is_digit,
};

verus! {

/// One field written as `key:value`.
pub open spec fn field_text(f: (Seq<char>, Seq<char>)) -> Seq<char> {
    f.0 + ":"@ + f.1
}

/// A record written as `{` then its fields separated by `,` then `}`.
pub open spec fn record_text(fields: Seq<(Seq<char>, Seq<char>)>) -> Seq<char> {
    "{"@ + join(fields.map_values(|f: (Seq<char>, Seq<char>)| field_text(f)), ","@) + "}"@
}

/// The text without one leading `{` and then without one trailing `}`, where present.
pub open spec fn strip_braces(d: Seq<char>) -> Seq<char> {
    let s1 = if d.len() > 0 && d[0] == '{' {
        d.drop_first()
    } else {
        d
    };
    if s1.len() > 0 && s1.last() == '}' {
        s1.drop_last()
    } else {
        s1
    }
}

/// A field read back: the trimmed text before the first `:` and the trimmed
/// text between it and the next `:` (or the end). A part without `:` is not a field.
pub open spec fn parse_field(part: Seq<char>) -> Option<(Seq<char>, Seq<char>)> {
    let ps = split_rest(part, ":"@);
    if ps.len() >= 2 {
        Some((trim(ps[0]), trim(ps[1])))
    } else {
        None
    }
}

/// The fields of a record's text, if every comma-separated part is a field.
pub open spec fn parse_fields(d: Seq<char>) -> Option<Seq<(Seq<char>, Seq<char>)>> {
    let parts = split_rest(strip_braces(d), ","@);
    if forall|i: int| 0 <= i < parts.len() ==> (#[trigger] parse_field(parts[i])) is Some {
        Some(parts.map_values(|p: Seq<char>| parse_field(p)->0))
    } else {
        None
    }
}

/// The value of the last field named `key`.
pub open spec fn field_value(fields: Seq<(Seq<char>, Seq<char>)>, key: Seq<char>) -> Option<
    Seq<char>,
>
    decreases fields.len(),
{
    if fields.len() == 0 {
        None
    } else if fields.last().0 == key {
        Some(fields.last().1)
    } else {
        field_value(fields.drop_last(), key)
    }
}

/// A user of the record format.
#[derive(Debug)]
pub struct User {
    pub username: String,
    pub age: u32,
    pub year: u32,
}

/// The fields a user is written with, in order.
pub open spec fn user_fields(username: Seq<char>, age: u32, year: u32) -> Seq<
    (Seq<char>, Seq<char>),
> {
    seq![
        ("username"@, username),
        ("age"@, decimal_text(age as nat)),
        ("year"@, decimal_text(year as nat)),
    ]
}

/// The user (name, age, year) a record's text describes, if it is a record
/// with a `username` field and `age` and `year` fields holding `u32` numbers.
pub open spec fn user_of_text(d: Seq<char>) -> Option<(Seq<char>, u32, u32)> {
    match parse_fields(d) {
        Some(fs) => match (field_value(fs, "username"@), field_value(fs, "age"@), field_value(fs, "year"@)) {
            (Some(n), Some(a), Some(y)) => match (u32_of_text(a), u32_of_text(y)) {
                (Some(a), Some(y)) => Some((n, a, y)),
                _ => None,
            },
            _ => None,
        },
        None => None,
    }
}

proof fn lemma_join_push(ps: Seq<Seq<char>>, x: Seq<char>, d: Seq<char>)
    requires
        ps.len() >= 1,
    ensures
        join(ps.push(x), d) == join(ps, d) + d + x,
    decreases ps.len(),
{
    if ps.len() == 1 {
        assert(ps.push(x).drop_first() =~= seq![x]);
        assert(join(seq![x], d) == x);
        assert(ps.push(x)[0] == ps[0]);
        assert(join(ps.push(x), d) =~= join(ps, d) + d + x);
    } else {
        lemma_join_push(ps.drop_first(), x, d);
        assert(ps.push(x).drop_first() =~= ps.drop_first().push(x));
        assert(join(ps.push(x), d) =~= join(ps, d) + d + x);
    }
}

/// Writes `fields` as a record.
pub fn format_fields(fields: &Vec<(String, String)>) -> (s: String)
    ensures
        s@ == record_text(fields@.map_values(|f: (String, String)| (f.0@, f.1@))),
{
    let ghost fs = fields@.map_values(|f: (String, String)| (f.0@, f.1@));
    let ghost texts = fs.map_values(|f: (Seq<char>, Seq<char>)| field_text(f));
    let mut s = String::new();
    s.append("{");
    let mut i: usize = 0;
    while i < fields.len()
        invariant
            0 <= i <= fields@.len(),
            fs == fields@.map_values(|f: (String, String)| (f.0@, f.1@)),
            texts == fs.map_values(|f: (Seq<char>, Seq<char>)| field_text(f)),
            s@ == "{"@ + join(texts.subrange(0, i as int), ","@),
        decreases fields@.len() - i,
    {
        let ghost before = s@;
        if i > 0 {
            s.append(",");
        }
        s.append(fields[i].0.as_str());
        s.append(":");
        s.append(fields[i].1.as_str());
        proof {
            assert(texts[i as int] == fields@[i as int].0@ + ":"@ + fields@[i as int].1@);
            assert(texts.subrange(0, i + 1) =~= texts.subrange(0, i as int).push(texts[i as int]));
            if i > 0 {
                lemma_join_push(texts.subrange(0, i as int), texts[i as int], ","@);
            } else {
                assert(texts.subrange(0, 1) =~= seq![texts[0]]);
            }
        }
        i = i + 1;
    }
    s.append("}");
    assert(texts.subrange(0, fields@.len() as int) =~= texts);
    s
}

impl User {
    /// Writes the user as `{username:...,age:...,year:...}`.
    pub fn serialize(&self) -> (s: String)
        ensures
            s@ == record_text(user_fields(self.username@, self.age, self.year)),
    {
        let mut fields: Vec<(String, String)> = Vec::new();
        fields.push(("username".to_owned(), self.username.clone()));
        fields.push(("age".to_owned(), u32_to_text(self.age)));
        fields.push(("year".to_owned(), u32_to_text(self.year)));
        let s = format_fields(&fields);
        assert(fields@.map_values(|f: (String, String)| (f.0@, f.1@)) =~= user_fields(
            self.username@,
            self.age,
            self.year,
        ));
        s
    }
}

/// The text without one leading `{` and then without one trailing `}`, where present.
pub fn strip_braces_str<'a>(data: &'a str) -> (r: &'a str)
    ensures
        r@ == strip_braces(data@),
{
    let cs = str_chars(data);
    let n = cs.len();
    let start: usize = if n > 0 && cs[0] == '{' {
        1
    } else {
        0
    };
    let end: usize = if n > start && cs[n - 1] == '}' {
        n - 1
    } else {
        n
    };
    proof {
        let d = data@;
        let s1 = if d.len() > 0 && d[0] == '{' {
            d.drop_first()
        } else {
            d
        };
        assert(s1 =~= d.subrange(start as int, n as int));
        if s1.len() > 0 && s1.last() == '}' {
            assert(s1.drop_last() =~= d.subrange(start as int, end as int));
        } else {
            assert(s1 =~= d.subrange(start as int, end as int));
        }
    }
    data.substring_char(start, end)
}

/// The value of the last field named `key`.
fn find_value(fields: &Vec<(String, String)>, key: &str) -> (r: Option<String>)
    ensures
        match field_value(fields@.map_values(|f: (String, String)| (f.0@, f.1@)), key@) {
            Some(v) => r matches Some(s) && s@ == v,
            None => r is None,
        },
{
    let ghost fs = fields@.map_values(|f: (String, String)| (f.0@, f.1@));
    let mut i = fields.len();
    assert(fs.subrange(0, i as int) =~= fs);
    while i > 0
        invariant
            i <= fields@.len(),
            fs == fields@.map_values(|f: (String, String)| (f.0@, f.1@)),
            field_value(fs, key@) == field_value(fs.subrange(0, i as int), key@),
        decreases i,
    {
        let ghost pre = fs.subrange(0, i as int);
        assert(pre.drop_last() =~= fs.subrange(0, i - 1));
        if str_eq(fields[i - 1].0.as_str(), key) {
            return Some(fields[i - 1].1.clone());
        }
        i = i - 1;
    }
    None
}

/// The fields of a record's text, if every comma-separated part is a field.
pub fn read_fields(data: &str) -> (r: Option<Vec<(String, String)>>)
    ensures
        match parse_fields(data@) {
            Some(fs) => r matches Some(v) && v@.map_values(|f: (String, String)| (f.0@, f.1@)) == fs,
            None => r is None,
        },
{
    proof {
        reveal_strlit(",");
        reveal_strlit(":");
    }
    let inner = strip_braces_str(data);
    let parts: Vec<&str> = StrSplit::new(inner, ",").collect();
    let ghost ps = split_rest(inner@, ","@);
    assert(pieces_spec((Some(inner@), ","@)) == ps);
    let mut fields: Vec<(String, String)> = Vec::new();
    let mut i: usize = 0;
    while i < parts.len()
        invariant
            0 <= i <= parts@.len(),
            parts@.len() == ps.len(),
            ":"@.len() > 0,
            ps == split_rest(strip_braces(data@), ","@),
            forall|j: int| 0 <= j < parts@.len() ==> #[trigger] parts@[j]@ == ps[j],
            forall|j: int| 0 <= j < i ==> (#[trigger] parse_field(ps[j])) is Some,
            fields@.len() == i,
            forall|j: int|
                0 <= j < i ==> (#[trigger] fields@[j]).0@ == (parse_field(ps[j])->0).0
                    && fields@[j].1@ == (parse_field(ps[j])->0).1,
        decreases parts@.len() - i,
    {
        let part = parts[i];
        let sub: Vec<&str> = StrSplit::new(part, ":").collect();
        assert(pieces_spec((Some(part@), ":"@)) == split_rest(part@, ":"@));
        if sub.len() < 2 {
            assert(parse_field(ps[i as int]) is None);
            return None;
        }
        let key = trim_str(sub[0]).to_owned();
        let value = trim_str(sub[1]).to_owned();
        fields.push((key, value));
        i = i + 1;
    }
    proof {
        let fs = fields@.map_values(|f: (String, String)| (f.0@, f.1@));
        assert(fs =~= ps.map_values(|p: Seq<char>| parse_field(p)->0));
    }
    Some(fields)
}

impl User {
    /// Reads a user from a record's text, if it describes one.
    pub fn try_deserialize(data: &String) -> (r: Option<User>)
        ensures
            match user_of_text(data@) {
                Some((n, a, y)) => r matches Some(u) && u.username@ == n && u.age == a && u.year
                    == y,
                None => r is None,
            },
    {
        let fields = match read_fields(data.as_str()) {
            Some(f) => f,
            None => {
                return None;
            },
        };
        let name = find_value(&fields, "username");
        let age = find_value(&fields, "age");
        let year = find_value(&fields, "year");
        match (name, age, year) {
            (Some(n), Some(a), Some(y)) => match (parse_u32(a.as_str()), parse_u32(y.as_str())) {
                (Some(a), Some(y)) => Some(User { username: n, age: a, year: y }),
                _ => None,
            },
            _ => None,
        }
    }

    /// Reads a user from a record's text, which must describe one.
    pub fn mydeserialize(data: &String) -> (u: User)
        requires
            user_of_text(data@) is Some,
        ensures
            user_of_text(data@) == Some((u.username@, u.age, u.year)),
    {
        let r = User::try_deserialize(data);
        r.unwrap()
    }
}

proof fn lemma_char_occurs(s: Seq<char>, c: char, j: int)
    ensures
        occurs_at(s, seq![c], j) <==> (0 <= j < s.len() && s[j] == c),
{
    if 0 <= j < s.len() && s[j] == c {
        assert(s.subrange(j, j + 1) =~= seq![c]);
    }
    if occurs_at(s, seq![c], j) {
        assert(s.subrange(j, j + 1)[0] == s[j]);
    }
}

/// The first occurrence of a single character is at its first index.
proof fn lemma_first_char(s: Seq<char>, c: char)
    ensures
        !s.contains(c) ==> first_match(s, seq![c]) is None,
        forall|k: int|
            0 <= k < s.len() && s[k] == c && (forall|i: int| 0 <= i < k ==> s[i] != c)
                ==> #[trigger] first_match(s, seq![c]) == Some(k),
{
    lemma_find_seq(s, seq![c], 0);
    if let Some(m) = first_match(s, seq![c]) {
        lemma_char_occurs(s, c, m);
        assert(s.contains(c)) by {
            assert(s[m] == c);
        }
        assert forall|k: int|
            0 <= k < s.len() && s[k] == c && (forall|i: int| 0 <= i < k ==> s[i] != c) implies #[trigger] first_match(
            s,
            seq![c],
        ) == Some(k) by {
            lemma_char_occurs(s, c, k);
            if m < k {
                assert(s[m] != c);
            }
        }
    } else {
        assert forall|k: int| 0 <= k < s.len() implies s[k] != c by {
            lemma_char_occurs(s, c, k);
        }
    }
}

/// Splitting at a single character undoes joining with it, when no piece
/// holds that character.
pub proof fn law_join_split(ps: Seq<Seq<char>>, c: char)
    requires
        ps.len() >= 1,
        forall|i: int| 0 <= i < ps.len() ==> !(#[trigger] ps[i]).contains(c),
    ensures
        split_rest(join(ps, seq![c]), seq![c]) == ps,
    decreases ps.len(),
{
    let d = seq![c];
    if ps.len() == 1 {
        lemma_first_char(ps[0], c);
        assert(split_rest(join(ps, d), d) =~= ps);
    } else {
        let rest = ps.drop_first();
        law_join_split(rest, c);
        let s = join(ps, d);
        let k = ps[0].len() as int;
        assert(s == ps[0] + d + join(rest, d));
        assert(s[k] == c);
        assert forall|i: int| 0 <= i < k implies s[i] != c by {
            assert(s[i] == ps[0][i]);
            assert(!ps[0].contains(c));
        }
        lemma_first_char(s, c);
        assert(first_match(s, d) == Some(k));
        assert(s.subrange(0, k) =~= ps[0]);
        assert(s.subrange(k + 1, s.len() as int) =~= join(rest, d));
        assert(split_rest(s, d) =~= ps);
    }
}

proof fn lemma_trim_unchanged(s: Seq<char>)
    requires
        s.len() > 0,
        !is_ws(s[0]),
        !is_ws(s.last()),
    ensures
        trim(s) == s,
{
    lemma_trim_bounds(s, 0, s.len() as int);
    assert(s.subrange(0, s.len() as int) =~= s);
}

proof fn lemma_number_field(key: Seq<char>, v: u32)
    requires
        key.len() > 0,
        !key.contains(':'),
        !key.contains(','),
        !is_ws(key[0]),
        !is_ws(key.last()),
    ensures
        !field_text((key, decimal_text(v as nat))).contains(','),
        parse_field(field_text((key, decimal_text(v as nat)))) == Some((key, decimal_text(v as nat))),
{
    reveal_strlit(":");
    let a = decimal_text(v as nat);
    crate::text::lemma_decimal_text(v as nat);
    assert(!a.contains(':')) by {
        if a.contains(':') {
            let i = choose|i: int| 0 <= i < a.len() && a[i] == ':';
            assert(is_digit(a[i]));
        }
    }
    assert(!a.contains(',')) by {
        if a.contains(',') {
            let i = choose|i: int| 0 <= i < a.len() && a[i] == ',';
            assert(is_digit(a[i]));
        }
    }
    lemma_named_field(key, a);
    assert(is_digit(a[0]));
    assert(is_digit(a.last()));
    lemma_trim_unchanged(a);
}

proof fn lemma_named_field(key: Seq<char>, val: Seq<char>)
    requires
        key.len() > 0,
        !key.contains(':'),
        !key.contains(','),
        !val.contains(':'),
        !val.contains(','),
        !is_ws(key[0]),
        !is_ws(key.last()),
    ensures
        !field_text((key, val)).contains(','),
        parse_field(field_text((key, val))) == Some((key, trim(val))),
{
    reveal_strlit(":");
    let f = field_text((key, val));
    assert(f == key + seq![':'] + val);
    assert(!f.contains(',')) by {
        if f.contains(',') {
            let i = choose|i: int| 0 <= i < f.len() && f[i] == ',';
            if i < key.len() {
                assert(key[i] == ',');
            } else if i > key.len() {
                assert(val[i - key.len() - 1] == ',');
            }
        }
    }
    let ps = seq![key, val];
    assert(join(ps, seq![':']) =~= f) by {
        assert(ps.drop_first() =~= seq![val]);
        assert(join(seq![val], seq![':']) == val);
    }
    law_join_split(ps, ':');
    assert(":"@ =~= seq![':']);
    assert(split_rest(f, ":"@) == ps);
    lemma_trim_unchanged(key);
    assert(parse_field(f) == Some((trim(ps[0]), trim(ps[1]))));
}

/// What reading gives back of a write: a user written as a record reads back
/// as the same user, provided the name holds neither `,` nor `:` and has no
/// surrounding whitespace, which the format cannot carry.
pub proof fn law_user_record_roundtrip(username: Seq<char>, age: u32, year: u32)
    requires
        !username.contains(','),
        !username.contains(':'),
        trim(username) == username,
    ensures
        user_of_text(record_text(user_fields(username, age, year))) == Some((username, age, year)),
{
    reveal_strlit("{");
    reveal_strlit("}");
    reveal_strlit(",");
    reveal_strlit("username");
    reveal_strlit("age");
    reveal_strlit("year");
    let fs = user_fields(username, age, year);
    let texts = fs.map_values(|f: (Seq<char>, Seq<char>)| field_text(f));
    let j = join(texts, ","@);
    let t = record_text(fs);
    // the braces
    assert(t == "{"@ + j + "}"@);
    assert(t.drop_first() =~= j + "}"@);
    assert(strip_braces(t) =~= j);
    // the fields
    let uname = "username"@;
    assert(!uname.contains(',') && !uname.contains(':')) by {
        assert(forall|i: int| 0 <= i < uname.len() ==> uname[i] != ',' && uname[i] != ':');
    }
    assert(!"age"@.contains(',') && !"age"@.contains(':')) by {
        assert(forall|i: int| 0 <= i < 3 ==> "age"@[i] != ',' && "age"@[i] != ':');
    }
    assert(!"year"@.contains(',') && !"year"@.contains(':')) by {
        assert(forall|i: int| 0 <= i < 4 ==> "year"@[i] != ',' && "year"@[i] != ':');
    }
    lemma_named_field(uname, username);
    lemma_number_field("age"@, age);
    lemma_number_field("year"@, year);
    assert(texts[0] == field_text(fs[0]));
    assert(texts[1] == field_text(fs[1]));
    assert(texts[2] == field_text(fs[2]));
    assert(forall|i: int| 0 <= i < texts.len() ==> !(#[trigger] texts[i]).contains(',')) by {
        assert(forall|i: int| 0 <= i < 3 ==> texts[i] == field_text(#[trigger] fs[i]));
    }
    law_join_split(texts, ',');
    assert(","@ =~= seq![',']);
    let parts = split_rest(strip_braces(t), ","@);
    assert(parts == texts);
    assert(forall|i: int| 0 <= i < parts.len() ==> (#[trigger] parse_field(parts[i])) is Some);
    assert(parts.map_values(|p: Seq<char>| parse_field(p)->0) =~= fs);
    // the lookups
    assert(fs.drop_last() =~= seq![(uname, username), ("age"@, decimal_text(age as nat))]);
    assert(fs.drop_last().drop_last() =~= seq![(uname, username)]);
    assert("year"@ != uname);
    assert("age"@ != uname);
    assert("year"@ != "age"@);
    law_u32_text_roundtrip(age);
    law_u32_text_roundtrip(year);
    assert(parse_fields(t) == Some(fs));
    reveal_with_fuel(field_value, 4);
    assert(field_value(fs, uname) == Some(username));
    assert(field_value(fs, "age"@) == Some(decimal_text(age as nat)));
    assert(field_value(fs, "year"@) == Some(decimal_text(year as nat)));
}

} // verus!
