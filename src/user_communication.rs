//! The texts of the e-mails sent to users.
use vstd::prelude::*;
use crate::entities::Place;
use crate::tags::str_views;

verus! {

/// The parts joined with `sep` between them.
pub open spec fn join(parts: Seq<Seq<char>>, sep: Seq<char>) -> Seq<char>
    decreases parts.len(),
{
    if parts.len() == 0 {
        Seq::empty()
    } else if parts.len() == 1 {
        parts[0]
    } else {
        join(parts.drop_last(), sep) + sep + parts.last()
    }
}

pub open spec fn or_empty(o: Option<String>) -> Seq<char> {
    match o {
        Some(s) => s@,
        None => Seq::empty(),
    }
}

/// Joins strings with `sep` between them.
pub fn join_strings(parts: &Vec<String>, sep: &str) -> (r: String)
    ensures
        r@ == join(str_views(parts@), sep@),
{
    let mut r = String::new();
    let mut i: usize = 0;
    while i < parts.len()
        invariant
            i <= parts@.len(),
            r@ == join(str_views(parts@).subrange(0, i as int), sep@),
        decreases parts@.len() - i,
    {
        let ghost pre = str_views(parts@).subrange(0, i as int);
        let ghost next = str_views(parts@).subrange(0, i + 1);
        assert(next.drop_last() =~= pre);
        assert(next.last() == parts@[i as int]@);
        if i > 0 {
            r.append(sep);
        } else {
            assert(pre.len() == 0);
            assert(r@ =~= Seq::<char>::empty());
        }
        r.append(parts[i].as_str());
        i += 1;
    }
    assert(str_views(parts@).subrange(0, parts@.len() as int) =~= str_views(parts@));
    r
}

fn text_or_empty(o: &Option<String>) -> (r: String)
    ensures
        r@ == or_empty(*o),
{
    match o {
        Some(s) => s.clone(),
        None => String::new(),
    }
}

pub open spec fn confirmation_text(url: Seq<char>) -> Seq<char> {
    "Na du Weltverbesserer*,\nwir freuen uns dass du bei der Karte von morgen mit dabei bist!\n\nBitte bestätige deine Email-Adresse hier:\n"@
        + url + "\n\neuphorische Grüße\ndas Karte von morgen-Team"@
}

/// The e-mail that asks a new user to confirm the address.
pub fn email_confirmation_email(url: &str) -> (r: String)
    ensures
        r@ == confirmation_text(url@),
{
    let mut r = "Na du Weltverbesserer*,\nwir freuen uns dass du bei der Karte von morgen mit dabei bist!\n\nBitte bestätige deine Email-Adresse hier:\n".to_owned();
    r.append(url);
    r.append("\n\neuphorische Grüße\ndas Karte von morgen-Team");
    r
}

/// The postal address of a place on one line: street, zip and city, country.
pub open spec fn address_line(e: Place) -> Seq<char> {
    match e.location.address {
        None => join(seq![Seq::empty(), " "@, Seq::empty()], ", "@),
        Some(a) => join(
            seq![or_empty(a.street), or_empty(a.zip) + " "@ + or_empty(a.city), or_empty(a.country)],
            ", "@,
        ),
    }
}

pub open spec fn contact_email(e: Place) -> Seq<char> {
    match e.contact {
        Some(c) => or_empty(c.email),
        None => Seq::empty(),
    }
}

pub open spec fn contact_phone(e: Place) -> Seq<char> {
    match e.contact {
        Some(c) => or_empty(c.phone),
        None => Seq::empty(),
    }
}

pub open spec fn homepage_text(e: Place) -> Seq<char> {
    match e.links {
        Some(l) => or_empty(l.homepage),
        None => Seq::empty(),
    }
}

/// The text of an e-mail about a place.
pub open spec fn entry_text(e: Place, category_names: Seq<Seq<char>>, tags: Seq<Seq<char>>, intro: Seq<char>) -> Seq<char> {
    let category = if category_names.len() > 0 { category_names[0] } else { Seq::empty() };
    "Hallo,\n"@ + intro + ":\n\n"@ + e.title@ + " ("@ + category + ")\n"@ + e.description@
        + "\n\n    Tags: "@ + join(tags, ", "@) + "\n    Adresse: "@ + address_line(e)
        + "\n    Webseite: "@ + homepage_text(e) + "\n    Email-Adresse: "@ + contact_email(e)
        + "\n    Telefon: "@ + contact_phone(e)
        + "\n\nEintrag anschauen oder bearbeiten:\nhttps://kartevonmorgen.org/#/?entry="@ + e.id@
        + "\n\nDu kannst dein Abonnement des Kartenbereichs abbestellen indem du dich auf https://kartevonmorgen.org einloggst.\n\neuphorische Grüße\ndas Karte von morgen-Team"@
}

/// The e-mail about a place, with the given category names, tags and
/// opening sentence.
pub fn entry_email(e: &Place, category_names: &Vec<String>, tags: &Vec<String>, intro_sentence: &str) -> (r: String)
    ensures
        r@ == entry_text(*e, str_views(category_names@), str_views(tags@), intro_sentence@),
{
    let category = if category_names.len() > 0 {
        category_names[0].clone()
    } else {
        String::new()
    };
    let (street, zip, city, country) = match &e.location.address {
        Some(a) => (text_or_empty(&a.street), text_or_empty(&a.zip), text_or_empty(&a.city), text_or_empty(&a.country)),
        None => (String::new(), String::new(), String::new(), String::new()),
    };
    let mut zip_city = zip;
    zip_city.append(" ");
    zip_city.append(city.as_str());
    let mut address_parts: Vec<String> = Vec::new();
    address_parts.push(street);
    address_parts.push(zip_city);
    address_parts.push(country);
    let address = join_strings(&address_parts, ", ");
    proof {
        let pv = str_views(address_parts@);
        assert(pv.drop_last().drop_last() =~= seq![pv[0]]);
        if e.location.address is Some {
            let a = e.location.address->0;
            assert(pv =~= seq![or_empty(a.street), or_empty(a.zip) + " "@ + or_empty(a.city), or_empty(a.country)]);
        } else {
            assert(pv =~= seq![Seq::<char>::empty(), " "@, Seq::<char>::empty()]);
        }
    }
    let (email, phone) = match &e.contact {
        Some(c) => (text_or_empty(&c.email), text_or_empty(&c.phone)),
        None => (String::new(), String::new()),
    };
    let homepage = match &e.links {
        Some(l) => text_or_empty(&l.homepage),
        None => String::new(),
    };
    let tag_list = join_strings(tags, ", ");
    let mut r = "Hallo,\n".to_owned();
    r.append(intro_sentence);
    r.append(":\n\n");
    r.append(e.title.as_str());
    r.append(" (");
    r.append(category.as_str());
    r.append(")\n");
    r.append(e.description.as_str());
    r.append("\n\n    Tags: ");
    r.append(tag_list.as_str());
    r.append("\n    Adresse: ");
    r.append(address.as_str());
    r.append("\n    Webseite: ");
    r.append(homepage.as_str());
    r.append("\n    Email-Adresse: ");
    r.append(email.as_str());
    r.append("\n    Telefon: ");
    r.append(phone.as_str());
    r.append("\n\nEintrag anschauen oder bearbeiten:\nhttps://kartevonmorgen.org/#/?entry=");
    r.append(e.id.as_str());
    r.append("\n\nDu kannst dein Abonnement des Kartenbereichs abbestellen indem du dich auf https://kartevonmorgen.org einloggst.\n\neuphorische Grüße\ndas Karte von morgen-Team");
    r
}

pub open spec fn new_entry_intro() -> Seq<char> {
    "ein neuer Eintrag auf der Karte von morgen wurde erstellt"@
}

pub open spec fn changed_entry_intro() -> Seq<char> {
    "folgender Eintrag der Karte von morgen wurde verändert"@
}

/// The e-mail about a newly created place.
pub fn new_entry_email(e: &Place, category_names: &Vec<String>) -> (r: String)
    ensures
        r@ == entry_text(*e, str_views(category_names@), str_views(e.tags@), new_entry_intro()),
{
    entry_email(e, category_names, &e.tags, "ein neuer Eintrag auf der Karte von morgen wurde erstellt")
}

/// The e-mail about a changed place.
pub fn changed_entry_email(e: &Place, category_names: &Vec<String>) -> (r: String)
    ensures
        r@ == entry_text(*e, str_views(category_names@), str_views(e.tags@), changed_entry_intro()),
{
    entry_email(e, category_names, &e.tags, "folgender Eintrag der Karte von morgen wurde verändert")
}

} // verus!
