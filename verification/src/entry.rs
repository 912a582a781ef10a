//! One business listing, its mathematical model, and the key by which
//! listings are sorted.

use crate::chars::lowercase;
use crate::keys::TextList;
use crate::text::to_chars;
use vstd::prelude::*;

verus! {

/// A business listing as read from one result block of a page.
#[derive(Debug, PartialEq, Eq, Hash)]
pub struct BusinessEntry {
    pub name: String,
    pub address: String,
    pub phones: String,
    pub whatsapp: Option<String>,
    pub website: Option<String>,
    pub contact_url: Option<String>,
}

/// The model of a [`BusinessEntry`]: its six fields as texts. Two listings
/// are the same listing exactly when their models are equal, optional
/// fields included.
pub struct EntryView {
    pub name: Seq<char>,
    pub address: Seq<char>,
    pub phones: Seq<char>,
    pub whatsapp: Option<Seq<char>>,
    pub website: Option<Seq<char>>,
    pub contact_url: Option<Seq<char>>,
}

impl EntryView {
    /// A listing is kept only when it has both a name and a phone text.
    pub open spec fn is_valid(self) -> bool {
        self.name.len() > 0 && self.phones.len() > 0
    }

    /// Listings are sorted by lowercased name, then lowercased address,
    /// then by every field as it is: name, address, phones, WhatsApp
    /// number, website, contact link. An absent field comes before a
    /// present one.
    pub open spec fn sort_key(self) -> Seq<Seq<char>> {
        seq![
            lowercase(self.name),
            lowercase(self.address),
            self.name,
            self.address,
            self.phones,
            presence(self.whatsapp),
            text_or_empty(self.whatsapp),
            presence(self.website),
            text_or_empty(self.website),
            presence(self.contact_url),
            text_or_empty(self.contact_url),
        ]
    }
}

/// Empty for an absent text, one character for a present one.
pub open spec fn presence(text: Option<Seq<char>>) -> Seq<char> {
    match text {
        Some(_) => seq!['1'],
        None => Seq::empty(),
    }
}

/// The text, or the empty text when it is absent.
pub open spec fn text_or_empty(text: Option<Seq<char>>) -> Seq<char> {
    match text {
        Some(text) => text,
        None => Seq::empty(),
    }
}

/// Listings with the same sort key are the same listing.
pub proof fn lemma_sort_key_injective(a: EntryView, b: EntryView)
    requires
        a.sort_key() == b.sort_key(),
    ensures
        a == b,
{
    let ka = a.sort_key();
    let kb = b.sort_key();
    assert(ka[2] == kb[2] && ka[3] == kb[3] && ka[4] == kb[4]);
    assert(ka[5] == kb[5] && ka[6] == kb[6]);
    assert(ka[7] == kb[7] && ka[8] == kb[8]);
    assert(ka[9] == kb[9] && ka[10] == kb[10]);
    assert(seq!['1'].len() == 1);
    assert(presence(a.whatsapp).len() == presence(b.whatsapp).len());
    assert(presence(a.website).len() == presence(b.website).len());
    assert(presence(a.contact_url).len() == presence(b.contact_url).len());
}

impl View for BusinessEntry {
    type V = EntryView;

    open spec fn view(&self) -> EntryView {
        EntryView {
            name: self.name@,
            address: self.address@,
            phones: self.phones@,
            whatsapp: self.whatsapp.deep_view(),
            website: self.website.deep_view(),
            contact_url: self.contact_url.deep_view(),
        }
    }
}

impl DeepView for BusinessEntry {
    type V = EntryView;

    open spec fn deep_view(&self) -> EntryView {
        self@
    }
}

/// Whether two optional texts are both absent or both present and equal.
pub fn same_text(a: &Option<String>, b: &Option<String>) -> (same: bool)
    ensures
        same == (a.deep_view() == b.deep_view()),
{
    match (a, b) {
        (None, None) => true,
        (Some(x), Some(y)) => *x == *y,
        _ => false,
    }
}

/// A copy of an optional text.
pub fn copy_text(a: &Option<String>) -> (out: Option<String>)
    ensures
        out.deep_view() == a.deep_view(),
{
    match a {
        None => None,
        Some(x) => Some(x.clone()),
    }
}

fn flag_chars(text: &Option<String>) -> (flag: Vec<char>)
    ensures
        flag@ == presence(text.deep_view()),
{
    let mut flag: Vec<char> = Vec::new();
    if text.is_some() {
        flag.push('1');
    }
    flag
}

fn chars_or_empty(text: &Option<String>) -> (chars: Vec<char>)
    ensures
        chars@ == text_or_empty(text.deep_view()),
{
    match text {
        Some(text) => to_chars(text.as_str()),
        None => Vec::new(),
    }
}

impl Clone for BusinessEntry {
    fn clone(&self) -> (out: Self)
        ensures
            out@ == self@,
    {
        BusinessEntry {
            name: self.name.clone(),
            address: self.address.clone(),
            phones: self.phones.clone(),
            whatsapp: copy_text(&self.whatsapp),
            website: copy_text(&self.website),
            contact_url: copy_text(&self.contact_url),
        }
    }
}

impl BusinessEntry {
    /// Whether the listing has both a name and a phone text.
    pub fn is_valid(&self) -> (valid: bool)
        ensures
            valid == self@.is_valid(),
    {
        !self.name.as_str().is_empty() && !self.phones.as_str().is_empty()
    }

    /// Whether two listings agree in every field.
    pub fn same_as(&self, other: &BusinessEntry) -> (same: bool)
        ensures
            same == (self@ == other@),
    {
        self.name == other.name && self.address == other.address && self.phones == other.phones
            && same_text(&self.whatsapp, &other.whatsapp) && same_text(
            &self.website,
            &other.website,
        ) && same_text(&self.contact_url, &other.contact_url)
    }

    /// The key by which the listing is sorted.
    pub fn sort_key(&self) -> (key: TextList)
        ensures
            key@ == self@.sort_key(),
    {
        let name = self.name.as_str().to_lowercase();
        let address = self.address.as_str().to_lowercase();
        let mut parts: Vec<Vec<char>> = Vec::new();
        parts.push(to_chars(name.as_str()));
        parts.push(to_chars(address.as_str()));
        parts.push(to_chars(self.name.as_str()));
        parts.push(to_chars(self.address.as_str()));
        parts.push(to_chars(self.phones.as_str()));
        parts.push(flag_chars(&self.whatsapp));
        parts.push(chars_or_empty(&self.whatsapp));
        parts.push(flag_chars(&self.website));
        parts.push(chars_or_empty(&self.website));
        parts.push(flag_chars(&self.contact_url));
        parts.push(chars_or_empty(&self.contact_url));
        let key = TextList { parts };
        assert(key@ =~= self@.sort_key());
        key
    }
}

} // verus!
