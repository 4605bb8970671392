//! The contact record and its JSON document.

use crate::json::{
    chars_of, field_at, field_text, lemma_field_complete, lemma_field_sound, opt_view,
    read_field, write_string_literal,
};
use vstd::prelude::*;

verus! {

/// One submission of the contact form: five optional text fields, each
/// kept exactly as it was submitted.
#[derive(Clone, Debug)]
pub struct Contact {
    first_name: Option<String>,
    last_name: Option<String>,
    email: Option<String>,
    phone: Option<String>,
    note: Option<String>,
}

/// What a `Contact` holds, as optional character sequences.
pub struct ContactView {
    pub first_name: Option<Seq<char>>,
    pub last_name: Option<Seq<char>>,
    pub email: Option<Seq<char>>,
    pub phone: Option<Seq<char>>,
    pub note: Option<Seq<char>>,
}

impl View for Contact {
    type V = ContactView;

    closed spec fn view(&self) -> ContactView {
        ContactView {
            first_name: opt_view(self.first_name),
            last_name: opt_view(self.last_name),
            email: opt_view(self.email),
            phone: opt_view(self.phone),
            note: opt_view(self.note),
        }
    }
}

/// The JSON document of a contact: an object with the members
/// `first_name`, `last_name`, `email`, `phone` and `note`, in that order,
/// each a string or `null`, with no white space.
pub open spec fn contact_json(c: ContactView) -> Seq<char> {
    seq!['{'] + field_text("first_name"@, c.first_name, ',') + field_text(
        "last_name"@,
        c.last_name,
        ',',
    ) + field_text("email"@, c.email, ',') + field_text("phone"@, c.phone, ',') + field_text(
        "note"@,
        c.note,
        '}',
    )
}

/// The contact whose document `u` is, read member by member.
pub open spec fn contact_at(u: Seq<char>) -> Option<ContactView> {
    if u.len() == 0 || u[0] != '{' {
        None
    } else {
        let u1 = u.skip(1);
        match field_at(u1, "first_name"@, ',') {
            None => None,
            Some((v1, n1)) => {
                let u2 = u1.skip(n1 as int);
                match field_at(u2, "last_name"@, ',') {
                    None => None,
                    Some((v2, n2)) => {
                        let u3 = u2.skip(n2 as int);
                        match field_at(u3, "email"@, ',') {
                            None => None,
                            Some((v3, n3)) => {
                                let u4 = u3.skip(n3 as int);
                                match field_at(u4, "phone"@, ',') {
                                    None => None,
                                    Some((v4, n4)) => {
                                        let u5 = u4.skip(n4 as int);
                                        match field_at(u5, "note"@, '}') {
                                            Some((v5, n5)) if n5 == u5.len() => Some(
                                                ContactView {
                                                    first_name: v1,
                                                    last_name: v2,
                                                    email: v3,
                                                    phone: v4,
                                                    note: v5,
                                                },
                                            ),
                                            _ => None,
                                        }
                                    },
                                }
                            },
                        }
                    },
                }
            },
        }
    }
}

proof fn lemma_contact_complete(c: ContactView)
    ensures
        contact_at(contact_json(c)) == Some(c),
{
    let f1 = field_text("first_name"@, c.first_name, ',');
    let f2 = field_text("last_name"@, c.last_name, ',');
    let f3 = field_text("email"@, c.email, ',');
    let f4 = field_text("phone"@, c.phone, ',');
    let f5 = field_text("note"@, c.note, '}');
    let u = contact_json(c);
    assert(u.skip(1) =~= f1 + (f2 + f3 + f4 + f5));
    lemma_field_complete("first_name"@, c.first_name, ',', f2 + f3 + f4 + f5);
    assert((f1 + (f2 + f3 + f4 + f5)).skip(f1.len() as int) =~= f2 + (f3 + f4 + f5));
    lemma_field_complete("last_name"@, c.last_name, ',', f3 + f4 + f5);
    assert((f2 + (f3 + f4 + f5)).skip(f2.len() as int) =~= f3 + (f4 + f5));
    lemma_field_complete("email"@, c.email, ',', f4 + f5);
    assert((f3 + (f4 + f5)).skip(f3.len() as int) =~= f4 + f5);
    lemma_field_complete("phone"@, c.phone, ',', f5);
    assert((f4 + f5).skip(f4.len() as int) =~= f5 + Seq::empty());
    lemma_field_complete("note"@, c.note, '}', Seq::empty());
    assert(f5 + Seq::<char>::empty() =~= f5);
}

proof fn lemma_contact_sound(u: Seq<char>)
    ensures
        contact_at(u) matches Some(c) ==> u == contact_json(c),
{
    if let Some(c) = contact_at(u) {
        let u1 = u.skip(1);
        lemma_field_sound(u1, "first_name"@, ',');
        let n1 = field_at(u1, "first_name"@, ',')->Some_0.1;
        let u2 = u1.skip(n1 as int);
        lemma_field_sound(u2, "last_name"@, ',');
        let n2 = field_at(u2, "last_name"@, ',')->Some_0.1;
        let u3 = u2.skip(n2 as int);
        lemma_field_sound(u3, "email"@, ',');
        let n3 = field_at(u3, "email"@, ',')->Some_0.1;
        let u4 = u3.skip(n3 as int);
        lemma_field_sound(u4, "phone"@, ',');
        let n4 = field_at(u4, "phone"@, ',')->Some_0.1;
        let u5 = u4.skip(n4 as int);
        lemma_field_sound(u5, "note"@, '}');
        let f1 = field_text("first_name"@, c.first_name, ',');
        let f2 = field_text("last_name"@, c.last_name, ',');
        let f3 = field_text("email"@, c.email, ',');
        let f4 = field_text("phone"@, c.phone, ',');
        let f5 = field_text("note"@, c.note, '}');
        assert(u5 =~= f5);
        assert(u4 =~= f4 + u5);
        assert(u3 =~= f3 + u4);
        assert(u2 =~= f2 + u3);
        assert(u1 =~= f1 + u2);
        assert(u =~= seq!['{'] + u1);
        assert(u =~= seq!['{'] + f1 + f2 + f3 + f4 + f5);
    }
}

/// A document determines the contact it was written for, so reading back
/// what `to_json` wrote gives the same five fields.
pub proof fn lemma_round_trip(c: ContactView, d: ContactView)
    requires
        contact_json(d) == contact_json(c),
    ensures
        d == c,
{
    lemma_contact_complete(c);
    lemma_contact_complete(d);
}

impl Contact {
    /// A contact from five optional fields; no field is checked.
    pub fn new(
        first_name: Option<String>,
        last_name: Option<String>,
        email: Option<String>,
        phone: Option<String>,
        note: Option<String>,
    ) -> (r: Contact)
        ensures
            r@ == (ContactView {
                first_name: opt_view(first_name),
                last_name: opt_view(last_name),
                email: opt_view(email),
                phone: opt_view(phone),
                note: opt_view(note),
            }),
    {
        Contact { first_name, last_name, email, phone, note }
    }

    pub fn first_name(&self) -> (r: &Option<String>)
        ensures
            opt_view(*r) == self@.first_name,
    {
        &self.first_name
    }

    pub fn last_name(&self) -> (r: &Option<String>)
        ensures
            opt_view(*r) == self@.last_name,
    {
        &self.last_name
    }

    pub fn email(&self) -> (r: &Option<String>)
        ensures
            opt_view(*r) == self@.email,
    {
        &self.email
    }

    pub fn phone(&self) -> (r: &Option<String>)
        ensures
            opt_view(*r) == self@.phone,
    {
        &self.phone
    }

    pub fn note(&self) -> (r: &Option<String>)
        ensures
            opt_view(*r) == self@.note,
    {
        &self.note
    }

    /// The JSON document of this contact. It never fails.
    pub fn to_json(&self) -> (r: String)
        ensures
            r@ == contact_json(self@),
    {
        let mut out = String::new();
        out.push('{');
        write_field(&mut out, "first_name", &self.first_name, ',');
        write_field(&mut out, "last_name", &self.last_name, ',');
        write_field(&mut out, "email", &self.email, ',');
        write_field(&mut out, "phone", &self.phone, ',');
        write_field(&mut out, "note", &self.note, '}');
        assert(out@ =~= contact_json(self@));
        out
    }

    /// Reads a document back, in the exact form that `to_json` writes:
    /// `Some` on that form and only on it, with the fields it holds.
    pub fn from_json(text: &str) -> (r: Option<Contact>)
        ensures
            r is Some <==> exists|c: ContactView| text@ == contact_json(c),
            r matches Some(d) ==> text@ == contact_json(d@),
    {
        let t = chars_of(text);
        let r = read_contact(&t);
        proof {
            lemma_contact_sound(t@);
            if exists|c: ContactView| text@ == contact_json(c) {
                let c = choose|c: ContactView| text@ == contact_json(c);
                lemma_contact_complete(c);
            }
        }
        r
    }
}

fn write_field(out: &mut String, name: &str, v: &Option<String>, sep: char)
    ensures
        final(out)@ == old(out)@ + field_text(name@, opt_view(*v), sep),
{
    let key = write_string_literal(name);
    out.append(key.as_str());
    out.push(':');
    match v {
        None => out.append("null"),
        Some(s) => {
            let lit = write_string_literal(s.as_str());
            out.append(lit.as_str());
        },
    }
    out.push(sep);
    proof {
        reveal(field_text);
    }
    assert(final(out)@ =~= old(out)@ + field_text(name@, opt_view(*v), sep));
}

fn read_contact(t: &Vec<char>) -> (r: Option<Contact>)
    ensures
        r is Some <==> contact_at(t@) is Some,
        r matches Some(c) ==> contact_at(t@) == Some(c@),
{
    if t.len() == 0 || t[0] != '{' {
        return None;
    }
    let (first_name, p1) = match read_field(t, 1, "first_name", ',') {
        None => return None,
        Some(x) => x,
    };
    assert(t@.skip(1).skip(p1 - 1) =~= t@.skip(p1 as int));
    let (last_name, p2) = match read_field(t, p1, "last_name", ',') {
        None => return None,
        Some(x) => x,
    };
    assert(t@.skip(p1 as int).skip(p2 - p1) =~= t@.skip(p2 as int));
    let (email, p3) = match read_field(t, p2, "email", ',') {
        None => return None,
        Some(x) => x,
    };
    assert(t@.skip(p2 as int).skip(p3 - p2) =~= t@.skip(p3 as int));
    let (phone, p4) = match read_field(t, p3, "phone", ',') {
        None => return None,
        Some(x) => x,
    };
    assert(t@.skip(p3 as int).skip(p4 - p3) =~= t@.skip(p4 as int));
    let (note, p5) = match read_field(t, p4, "note", '}') {
        None => return None,
        Some(x) => x,
    };
    if p5 != t.len() {
        return None;
    }
    Some(Contact { first_name, last_name, email, phone, note })
}

} // verus!
