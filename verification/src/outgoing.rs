//! Takes an outgoing message apart. A caller hands over a complete RFC 822
//! message with its attachments embedded; the service's send takes a
//! recipient, a subject, a plain text and attachments apart.
use mailparse::MailHeaderMap;
use vstd::prelude::*;
use vstd::string::*;

use crate::codec::{base64, encode_standard, seq_of};
use crate::json::{in_json, Items, Json, Members, Value};
use crate::params::{optional, text_or_null};
use crate::text::{after_prefix, begins_with, same};

verus! {

/// The most bytes that the attachments of one message may hold together.
pub const MAX_OUTGOING_ATTACHMENT_TOTAL: usize = 8 * 1024 * 1024;

/// The most attachments of one message.
pub const MAX_OUTGOING_ATTACHMENTS: usize = 20;

/// How deep the parts of a message are followed.
pub const MAX_DEPTH: usize = 12;

/// What one part of a message says and holds, apart from the parts in it.
#[derive(Debug, PartialEq)]
pub struct Content {
    /// The type, in lower case.
    pub mime_type: String,
    /// Whether its disposition is that of an attachment.
    pub attached: bool,
    /// The parameters of its disposition, each a name with its value.
    pub disposition_params: Vec<(String, String)>,
    /// The parameters of its type, each a name with its value.
    pub type_params: Vec<(String, String)>,
    /// Its bytes with the transfer encoding undone, where that could be done.
    pub raw: Option<Vec<u8>>,
    /// Its text, where it could be decoded.
    pub text: Option<String>,
}

/// What a [`Content`] is.
#[verifier::ext_equal]
pub struct ContentView {
    pub mime_type: Seq<char>,
    pub attached: bool,
    pub disposition_params: Seq<(Seq<char>, Seq<char>)>,
    pub type_params: Seq<(Seq<char>, Seq<char>)>,
    pub raw: Option<Seq<u8>>,
    pub text: Option<Seq<char>>,
}

/// What the parameters of a run are.
pub open spec fn params_of(params: Seq<(String, String)>) -> Seq<(Seq<char>, Seq<char>)> {
    Seq::new(params.len(), |i: int| (params[i].0@, params[i].1@))
}

/// The characters of a text that may be missing.
pub open spec fn chars_of(text: Option<String>) -> Option<Seq<char>> {
    match text {
        Some(s) => Some(s@),
        None => None,
    }
}

impl View for Content {
    type V = ContentView;

    open spec fn view(&self) -> ContentView {
        ContentView {
            mime_type: self.mime_type@,
            attached: self.attached,
            disposition_params: params_of(self.disposition_params@),
            type_params: params_of(self.type_params@),
            raw: seq_of(self.raw),
            text: chars_of(self.text),
        }
    }
}

/// A part of a message with the parts in it.
#[derive(Debug, PartialEq)]
pub struct MailPart {
    pub content: Content,
    pub subparts: Vec<MailPart>,
}

/// What a [`MailPart`] is.
#[verifier::ext_equal]
pub struct Part {
    pub content: ContentView,
    pub subparts: Seq<Part>,
}

impl MailPart {
    /// What this part is.
    pub open spec fn part(self) -> Part
        decreases self,
    {
        Part {
            content: self.content@,
            subparts: Seq::new(
                self.subparts@.len(),
                |i: int|
                    if 0 <= i < self.subparts@.len() {
                        self.subparts@[i].part()
                    } else {
                        arbitrary()
                    },
            ),
        }
    }
}

impl View for MailPart {
    type V = Part;

    open spec fn view(&self) -> Part {
        self.part()
    }
}

/// One line of a listing of parts: what a part says and holds, and how many
/// parts are in it.
pub type Line = (ContentView, nat);

/// A part with all the parts below it, each part before those in it.
pub open spec fn listing(part: Part) -> Seq<Line>
    decreases part, 0int,
{
    Seq::empty().push((part.content, part.subparts.len())) + listings(part.subparts, 0)
}

/// The listings of the parts from an index on, one behind the other.
pub open spec fn listings(parts: Seq<Part>, from: int) -> Seq<Line>
    decreases parts, parts.len() - from,
{
    if 0 <= from < parts.len() {
        listing(parts[from]) + listings(parts, from + 1)
    } else {
        Seq::empty()
    }
}

/// What `mailparse` takes a message apart into, where it can: a listing of its
/// parts.
pub uninterp spec fn mail_parts(raw: Seq<u8>) -> Option<Seq<Line>>;

/// What the lines of a run are.
pub open spec fn lines_of(lines: Seq<(Content, usize)>) -> Seq<Line> {
    Seq::new(lines.len(), |i: int| (lines[i].0@, lines[i].1 as nat))
}

/// `mailparse::parse_mail`, and of each part that `parts` walks through what
/// `subparts`, `ctype`, `get_content_disposition`, `get_body_raw` and
/// `get_body` tell: the listing of the message, which is that of a tree, or
/// none where the message cannot be parsed.
#[verifier::external_body]
fn parse_parts(raw: &[u8]) -> (r: Option<Vec<(Content, usize)>>)
    ensures
        match r {
            Some(lines) => mail_parts(raw@) == Some(lines_of(lines@)) && exists|tree: Part|
                #[trigger] listing(tree) == lines_of(lines@),
            None => mail_parts(raw@) is None,
        },
{
    let mail = mailparse::parse_mail(raw).ok()?;
    Some(mail.parts().map(|part| {
        let disposition = part.get_content_disposition();
        (Content {
            mime_type: part.ctype.mimetype.clone(),
            attached: matches!(disposition.disposition, mailparse::DispositionType::Attachment),
            disposition_params: disposition.params.into_iter().collect(),
            type_params: part.ctype.params.clone().into_iter().collect(),
            raw: part.get_body_raw().ok(),
            text: part.get_body().ok(),
        }, part.subparts.len())
    }).collect())
}

/// What `mailparse` gives as the value of the first header with a name, the
/// case of letters aside, in the headers that a message begins with.
pub uninterp spec fn first_header(raw: Seq<u8>, name: Seq<char>) -> Option<Seq<char>>;

/// `mailparse::parse_headers`, with the `get_first_value` of the headers: the
/// value of the first one with the name, or none.
#[verifier::external_body]
fn read_header(raw: &[u8], name: &str) -> (r: Option<String>)
    ensures
        chars_of(r) == first_header(raw@, name@),
{
    mailparse::parse_headers(raw).ok()?.0.get_first_value(name)
}

/// What `mailparse` gives as the values of all headers with a name, the case of
/// letters aside, in the headers that a message begins with, in their order.
pub uninterp spec fn all_headers(raw: Seq<u8>, name: Seq<char>) -> Seq<Seq<char>>;

/// `mailparse::parse_headers`, with the `get_all_values` of the headers: the
/// values of all with the name, or none where the headers cannot be parsed.
#[verifier::external_body]
fn read_headers(raw: &[u8], name: &str) -> (r: Vec<String>)
    ensures
        texts_of(r@) == all_headers(raw@, name@),
{
    match mailparse::parse_headers(raw) {
        Ok((headers, _)) => headers.get_all_values(name),
        Err(_) => Vec::new(),
    }
}

/// One entry of an address list: an address, or a group of them.
#[derive(Debug, PartialEq)]
pub enum MailAddress {
    Single(String),
    Group(Vec<String>),
}

/// What a [`MailAddress`] is.
#[verifier::ext_equal]
pub enum AddressView {
    Single(Seq<char>),
    Group(Seq<Seq<char>>),
}

/// What the texts of a run are.
pub open spec fn texts_of(items: Seq<String>) -> Seq<Seq<char>> {
    Seq::new(items.len(), |i: int| items[i]@)
}

impl View for MailAddress {
    type V = AddressView;

    open spec fn view(&self) -> AddressView {
        match self {
            MailAddress::Single(s) => AddressView::Single(s@),
            MailAddress::Group(items) => AddressView::Group(texts_of(items@)),
        }
    }
}

/// What the entries of a run are.
pub open spec fn entries_of(items: Seq<MailAddress>) -> Seq<AddressView> {
    Seq::new(items.len(), |i: int| items[i]@)
}

/// What `mailparse` reads from a text as a list of addresses, where it can.
pub uninterp spec fn address_list(value: Seq<char>) -> Option<Seq<AddressView>>;

/// `mailparse::addrparse`: the address of each mailbox and the addresses of
/// each group in the list, or none where the text is no such list.
#[verifier::external_body]
fn parse_addresses(value: &str) -> (r: Option<Vec<MailAddress>>)
    ensures
        match r {
            Some(list) => address_list(value@) == Some(entries_of(list@)),
            None => address_list(value@) is None,
        },
{
    let list = mailparse::addrparse(value).ok()?;
    Some(list.into_inner().into_iter().map(|entry| match entry {
        mailparse::MailAddr::Single(info) => MailAddress::Single(info.addr),
        mailparse::MailAddr::Group(group) => MailAddress::Group(
            group.addrs.into_iter().map(|info| info.addr).collect(),
        ),
    }).collect())
}

/// The lines that are still to be read, the last one in the vector first.
spec fn pending(lines: Seq<(Content, usize)>) -> Seq<Line> {
    Seq::new(
        lines.len(),
        |i: int| (lines[lines.len() - 1 - i].0@, lines[lines.len() - 1 - i].1 as nat),
    )
}

/// Reads one part with all the parts below it off a listing.
fn read_part(
    lines: &mut Vec<(Content, usize)>,
    Ghost(tree): Ghost<Part>,
    Ghost(rest): Ghost<Seq<Line>>,
) -> (r: MailPart)
    requires
        pending(old(lines)@) == listing(tree) + rest,
    ensures
        pending(final(lines)@) == rest,
        r@ == tree,
    decreases tree,
{
    let ghost before = lines@;
    proof {
        assert(listing(tree)[0] == (tree.content, tree.subparts.len()));
        assert((listing(tree) + rest)[0] == listing(tree)[0]);
        assert(pending(before).len() == before.len());
        assert(pending(before)[0] == (before.last().0@, before.last().1 as nat));
    }
    let (content, children) = lines.pop().unwrap();
    let ghost below = tree.subparts;
    assert(pending(lines@) =~= pending(before).drop_first());
    assert(pending(lines@) =~= listings(below, 0) + rest);
    let mut subparts: Vec<MailPart> = Vec::new();
    for i in 0..children
        invariant
            below == tree.subparts,
            children == below.len(),
            subparts@.len() == i,
            forall|j: int| 0 <= j < i ==> (#[trigger] subparts@[j])@ == below[j],
            pending(lines@) == listings(below, i as int) + rest,
    {
        let ghost after = listings(below, i + 1) + rest;
        assert(listings(below, i as int) + rest =~= listing(below[i as int]) + after);
        assert(decreases_to!(tree => tree.subparts[i as int]));
        let child = read_part(lines, Ghost(below[i as int]), Ghost(after));
        subparts.push(child);
    }
    let part = MailPart { content, subparts };
    proof {
        assert(pending(lines@) =~= rest);
        assert(part@.subparts =~= tree.subparts);
        assert(part@ == tree);
    }
    part
}

/// The tree of a listing.
pub open spec fn tree_of(lines: Seq<Line>) -> Part {
    choose|tree: Part| #[trigger] listing(tree) == lines
}

/// The tree of a listing that is one of a tree.
fn read_tree(lines: Vec<(Content, usize)>) -> (r: MailPart)
    requires
        exists|tree: Part| #[trigger] listing(tree) == lines_of(lines@),
    ensures
        r@ == tree_of(lines_of(lines@)),
{
    let ghost all = lines_of(lines@);
    let mut lines = lines;
    let mut stack: Vec<(Content, usize)> = Vec::new();
    assert(pending(stack@) =~= all.skip(all.len() as int));
    assert(lines_of(lines@) =~= all.take(lines@.len() as int));
    while lines.len() > 0
        invariant
            lines@.len() <= all.len(),
            lines_of(lines@) == all.take(lines@.len() as int),
            pending(stack@) == all.skip(lines@.len() as int),
        decreases lines@.len(),
    {
        let ghost n = lines@.len() as int;
        let ghost top = (lines@.last().0@, lines@.last().1 as nat);
        assert(lines_of(lines@)[n - 1] == top);
        assert(all.take(n)[n - 1] == all[n - 1]);
        let ghost shorter = lines_of(lines@.drop_last());
        assert(shorter =~= all.take(n - 1)) by {
            assert forall|i: int| 0 <= i < n - 1 implies shorter[i] == all.take(n - 1)[i] by {
                assert(lines_of(lines@)[i] == all.take(n)[i]);
            }
        }
        let ghost old_pending = pending(stack@);
        let line = lines.pop().unwrap();
        stack.push(line);
        assert(pending(stack@) =~= Seq::empty().push(top) + old_pending);
        assert(pending(stack@) =~= all.skip(n - 1));
    }
    assert(all.skip(0) =~= all);
    let ghost tree = tree_of(all);
    assert(listing(tree) + Seq::<Line>::empty() =~= all);
    read_part(&mut stack, Ghost(tree), Ghost(Seq::empty()))
}

proof fn one_part(a: Part, b: Part, x: Seq<Line>, y: Seq<Line>)
    requires
        listing(a) + x == listing(b) + y,
    ensures
        a == b,
        x == y,
    decreases a, 0int,
{
    let left = listing(a) + x;
    let right = listing(b) + y;
    assert(left[0] == (a.content, a.subparts.len()));
    assert(right[0] == (b.content, b.subparts.len()));
    assert(left.drop_first() =~= listings(a.subparts, 0) + x);
    assert(right.drop_first() =~= listings(b.subparts, 0) + y);
    one_forest(a.subparts, b.subparts, 0, x, y);
    assert(a.subparts =~= b.subparts);
}

proof fn one_forest(a: Seq<Part>, b: Seq<Part>, from: int, x: Seq<Line>, y: Seq<Line>)
    requires
        a.len() == b.len(),
        0 <= from <= a.len(),
        listings(a, from) + x == listings(b, from) + y,
    ensures
        forall|i: int| from <= i < a.len() ==> a[i] == b[i],
        x == y,
    decreases a, a.len() - from,
{
    if from < a.len() {
        let more_a = listings(a, from + 1) + x;
        let more_b = listings(b, from + 1) + y;
        assert(listing(a[from]) + more_a =~= listings(a, from) + x);
        assert(listing(b[from]) + more_b =~= listings(b, from) + y);
        one_part(a[from], b[from], more_a, more_b);
        one_forest(a, b, from + 1, x, y);
    } else {
        assert(listings(a, from) + x =~= x);
        assert(listings(b, from) + y =~= y);
    }
}

/// A listing is that of one tree only, so a message is taken apart into one
/// tree.
pub proof fn a_listing_has_one_tree(tree: Part)
    ensures
        tree_of(listing(tree)) == tree,
{
    let other = tree_of(listing(tree));
    assert(listing(tree) + Seq::<Line>::empty() =~= listing(tree));
    assert(listing(other) + Seq::<Line>::empty() =~= listing(tree));
    one_part(other, tree, Seq::empty(), Seq::empty());
}

/// The addresses in the first `n` entries of a list.
pub open spec fn flattened(list: Seq<AddressView>, n: int) -> Seq<Seq<char>>
    decreases n,
{
    if n <= 0 {
        Seq::empty()
    } else {
        match list[n - 1] {
            AddressView::Single(s) => flattened(list, n - 1).push(s),
            AddressView::Group(items) => flattened(list, n - 1) + items,
        }
    }
}

/// The addresses of a list, those of its groups among them.
pub fn flatten(list: &Vec<MailAddress>) -> (r: Vec<String>)
    ensures
        texts_of(r@) == flattened(entries_of(list@), list@.len() as int),
{
    let ghost all = entries_of(list@);
    let mut out: Vec<String> = Vec::new();
    assert(texts_of(out@) =~= flattened(all, 0));
    for i in 0..list.len()
        invariant
            all == entries_of(list@),
            texts_of(out@) == flattened(all, i as int),
    {
        assert(all[i as int] == list@[i as int]@);
        let ghost before = out@;
        match &list[i] {
            MailAddress::Single(s) => {
                out.push(s.clone());
                assert(texts_of(out@) =~= texts_of(before).push(s@));
            },
            MailAddress::Group(items) => {
                let ghost group = texts_of(items@);
                assert(texts_of(out@) =~= texts_of(before) + group.take(0));
                for j in 0..items.len()
                    invariant
                        group == texts_of(items@),
                        texts_of(out@) == texts_of(before) + group.take(j as int),
                {
                    let ghost so_far = out@;
                    out.push(items[j].clone());
                    assert(texts_of(out@) =~= texts_of(so_far).push(items@[j as int]@));
                    assert(group.take(j + 1) =~= group.take(j as int).push(group[j as int]));
                    assert(texts_of(out@) =~= texts_of(before) + group.take(j + 1));
                }
                assert(group.take(items@.len() as int) =~= group);
            },
        }
    }
    out
}

/// The addresses that the value of a header names, where it is a list of
/// addresses; an empty one names nobody.
pub open spec fn addresses_in(value: Seq<char>) -> Option<Seq<Seq<char>>> {
    if value.len() == 0 {
        Some(Seq::empty())
    } else {
        match address_list(value) {
            Some(list) => Some(flattened(list, list.len() as int)),
            None => None,
        }
    }
}

/// What the texts of a run that may be missing are.
pub open spec fn list_in(list: Option<Vec<String>>) -> Option<Seq<Seq<char>>> {
    match list {
        Some(items) => Some(texts_of(items@)),
        None => None,
    }
}

/// What the lists of a run are.
pub open spec fn lists_in(lists: Seq<Option<Vec<String>>>) -> Seq<Option<Seq<Seq<char>>>> {
    Seq::new(lists.len(), |i: int| list_in(lists[i]))
}

/// The addresses that the value of a header names, where it is a list of
/// addresses.
pub fn addresses(value: &str) -> (r: Option<Vec<String>>)
    ensures
        list_in(r) == addresses_in(value@),
{
    if value.is_empty() {
        let nobody: Vec<String> = Vec::new();
        assert(texts_of(nobody@) =~= Seq::<Seq<char>>::empty());
        return Some(nobody);
    }
    match parse_addresses(value) {
        Some(list) => Some(flatten(&list)),
        None => None,
    }
}

/// The addresses that each of some headers names.
pub open spec fn addresses_in_each(values: Seq<Seq<char>>) -> Seq<Option<Seq<Seq<char>>>> {
    values.map_values(|value: Seq<char>| addresses_in(value))
}

fn addresses_of_each(values: &Vec<String>) -> (r: Vec<Option<Vec<String>>>)
    ensures
        lists_in(r@) == addresses_in_each(texts_of(values@)),
{
    let mut out: Vec<Option<Vec<String>>> = Vec::new();
    for i in 0..values.len()
        invariant
            out@.len() == i,
            forall|j: int|
                0 <= j < i ==> list_in(#[trigger] out@[j]) == addresses_in(values@[j]@),
    {
        out.push(addresses(values[i].as_str()));
    }
    assert(lists_in(out@) =~= addresses_in_each(texts_of(values@)));
    out
}

/// The value of a header; empty where there is none.
pub open spec fn header_in(raw: Seq<u8>, name: Seq<char>) -> Seq<char> {
    match first_header(raw, name) {
        Some(value) => value,
        None => Seq::empty(),
    }
}

/// The value of a header; empty where there is none.
pub fn header_value(raw: &[u8], name: &str) -> (r: String)
    ensures
        r@ == header_in(raw@, name@),
{
    match read_header(raw, name) {
        Some(value) => value,
        None => String::new(),
    }
}

/// The addresses in the first `n` of some lists, as far as they were read.
pub open spec fn named_in(lists: Seq<Option<Seq<Seq<char>>>>, n: int) -> Seq<Seq<char>>
    decreases n,
{
    if n <= 0 {
        Seq::empty()
    } else {
        match lists[n - 1] {
            Some(list) => named_in(lists, n - 1) + list,
            None => named_in(lists, n - 1),
        }
    }
}

/// Whether each of some lists was read.
pub open spec fn all_read(lists: Seq<Option<Seq<Seq<char>>>>) -> bool {
    forall|i: int| 0 <= i < lists.len() ==> (#[trigger] lists[i]) is Some
}

/// The one address among those that the headers of a message name. Where a
/// header was not read, who else is named cannot be known.
pub open spec fn only_one(lists: Seq<Option<Seq<Seq<char>>>>) -> Result<Seq<char>, &'static str> {
    let all = named_in(lists, lists.len() as int);
    if all.len() == 0 {
        Err("lnemail_recipient_required")
    } else if all.len() > 1 {
        Err("lnemail_single_recipient_only")
    } else if !all_read(lists) {
        Err("invalid_params")
    } else {
        Ok(all[0])
    }
}

proof fn named_in_grows(lists: Seq<Option<Seq<Seq<char>>>>, n: int)
    requires
        0 <= n <= lists.len(),
    ensures
        named_in(lists, n).len() <= named_in(lists, lists.len() as int).len(),
    decreases lists.len() - n,
{
    if n < lists.len() {
        named_in_grows(lists, n + 1);
    }
}

/// The one recipient of a message. Every address in the To, Cc and Bcc headers
/// has to be that one recipient, or the message is refused: none is silently
/// dropped.
pub fn single_recipient(lists: &Vec<Option<Vec<String>>>) -> (r: Result<String, &'static str>)
    ensures
        match r {
            Ok(one) => only_one(lists_in(lists@)) == Ok::<Seq<char>, &'static str>(one@),
            Err(e) => only_one(lists_in(lists@)) == Err::<Seq<char>, &'static str>(e),
        },
{
    let ghost all = lists_in(lists@);
    let mut found: Option<String> = None;
    let mut unread: bool = false;
    for i in 0..lists.len()
        invariant
            all == lists_in(lists@),
            match found {
                Some(one) => named_in(all, i as int) == Seq::<Seq<char>>::empty().push(one@),
                None => named_in(all, i as int) == Seq::<Seq<char>>::empty(),
            },
            unread == (exists|j: int| 0 <= j < i && (#[trigger] all[j]) is None),
    {
        assert(all[i as int] == list_in(lists@[i as int]));
        match &lists[i] {
            Some(list) => {
                proof {
                    named_in_grows(all, i + 1);
                    assert(all[i as int] == Some(texts_of(list@)));
                }
                if list.len() > 0 {
                    if list.len() > 1 || found.is_some() {
                        return Err("lnemail_single_recipient_only");
                    }
                    found = Some(list[0].clone());
                    assert(named_in(all, i + 1) =~= Seq::<Seq<char>>::empty().push(list@[0]@));
                } else {
                    assert(named_in(all, i + 1) =~= named_in(all, i as int));
                }
            },
            None => {
                unread = true;
            },
        }
    }
    match found {
        Some(one) => if unread {
            Err("invalid_params")
        } else {
            Ok(one)
        },
        None => Err("lnemail_recipient_required"),
    }
}

/// The value of the first parameter with a name.
pub open spec fn param(params: Seq<(Seq<char>, Seq<char>)>, name: Seq<char>) -> Option<Seq<char>>
    decreases params.len(),
{
    if params.len() == 0 {
        None
    } else if params[0].0 == name {
        Some(params[0].1)
    } else {
        param(params.drop_first(), name)
    }
}

fn find_param(params: &Vec<(String, String)>, name: &str) -> (r: Option<String>)
    ensures
        chars_of(r) == param(params_of(params@), name@),
{
    let ghost all = params_of(params@);
    assert(all.skip(0) =~= all);
    for i in 0..params.len()
        invariant
            all == params_of(params@),
            param(all, name@) == param(all.skip(i as int), name@),
    {
        assert(all.skip(i as int).drop_first() =~= all.skip(i + 1));
        assert(all.skip(i as int)[0] == (params@[i as int].0@, params@[i as int].1@));
        if same(params[i].0.as_str(), name) {
            return Some(params[i].1.clone());
        }
    }
    assert(all.skip(params@.len() as int).len() == 0);
    None
}

/// Whether a part is an attachment: by its disposition, or because it is
/// neither a text nor a wrapper of parts.
pub open spec fn is_attached(part: ContentView) -> bool {
    part.attached || (!begins_with(part.mime_type, "text/"@) && !begins_with(
        part.mime_type,
        "multipart/"@,
    ))
}

/// Whether a part is an attachment.
pub fn is_attachment(part: &Content) -> (r: bool)
    ensures
        r == is_attached(part@),
{
    part.attached || (after_prefix(part.mime_type.as_str(), "text/").is_none() && after_prefix(
        part.mime_type.as_str(),
        "multipart/",
    ).is_none())
}

/// The name of an attachment: what its disposition says, or its type, or else
/// a name for any.
pub open spec fn filename_of(part: ContentView) -> Seq<char> {
    match param(part.disposition_params, "filename"@) {
        Some(name) => name,
        None => match param(part.type_params, "name"@) {
            Some(name) => name,
            None => "attachment"@,
        },
    }
}

fn filename(part: &Content) -> (r: String)
    ensures
        r@ == filename_of(part@),
{
    match find_param(&part.disposition_params, "filename") {
        Some(name) => name,
        None => match find_param(&part.type_params, "name") {
            Some(name) => name,
            None => "attachment".to_owned(),
        },
    }
}

/// An attachment as the service takes it.
#[derive(Debug, PartialEq)]
pub struct Attached {
    pub filename: String,
    pub content_type: String,
    /// Its bytes, in base64.
    pub content: String,
    /// How many bytes it holds.
    pub size: usize,
}

/// What an [`Attached`] is.
#[verifier::ext_equal]
pub struct AttachedView {
    pub filename: Seq<char>,
    pub content_type: Seq<char>,
    pub content: Seq<char>,
    pub size: nat,
}

impl View for Attached {
    type V = AttachedView;

    open spec fn view(&self) -> AttachedView {
        AttachedView {
            filename: self.filename@,
            content_type: self.content_type@,
            content: self.content@,
            size: self.size as nat,
        }
    }
}

/// What was gathered from the parts of a message so far.
#[derive(Debug, PartialEq)]
pub struct Gathered {
    pub plain: Option<String>,
    pub attachments: Vec<Attached>,
}

/// What a [`Gathered`] is.
#[verifier::ext_equal]
pub struct GatheredView {
    pub plain: Option<Seq<char>>,
    pub attachments: Seq<AttachedView>,
}

impl View for Gathered {
    type V = GatheredView;

    open spec fn view(&self) -> GatheredView {
        GatheredView {
            plain: chars_of(self.plain),
            attachments: Seq::new(self.attachments@.len(), |i: int| self.attachments@[i]@),
        }
    }
}

/// What one more part without parts of its own adds: an attachment, or the
/// text where it is plain and the first.
pub open spec fn gathered_leaf(part: ContentView, so_far: GatheredView) -> Result<
    GatheredView,
    &'static str,
> {
    if is_attached(part) {
        if so_far.attachments.len() >= MAX_OUTGOING_ATTACHMENTS {
            Err("invalid_params")
        } else {
            match part.raw {
                Some(bytes) => Ok(
                    GatheredView {
                        plain: so_far.plain,
                        attachments: so_far.attachments.push(
                            AttachedView {
                                filename: filename_of(part),
                                content_type: part.mime_type,
                                content: base64(bytes),
                                size: bytes.len(),
                            },
                        ),
                    },
                ),
                None => Err("invalid_params"),
            }
        }
    } else if so_far.plain is None && part.mime_type == "text/plain"@ {
        match part.text {
            Some(text) => Ok(
                GatheredView { plain: Some(text), attachments: so_far.attachments },
            ),
            None => Err("invalid_params"),
        }
    } else {
        Ok(so_far)
    }
}

/// What a part and all the parts below it add, down to the depth that is
/// followed.
pub open spec fn gathered(part: Part, depth: nat, so_far: GatheredView) -> Result<
    GatheredView,
    &'static str,
>
    decreases part, 0int,
{
    if depth > MAX_DEPTH {
        Ok(so_far)
    } else if part.subparts.len() > 0 {
        gathered_all(part.subparts, 0, depth + 1, so_far)
    } else {
        gathered_leaf(part.content, so_far)
    }
}

/// What the parts from an index on add, one after the other, up to the first
/// that is refused.
pub open spec fn gathered_all(
    parts: Seq<Part>,
    from: int,
    depth: nat,
    so_far: GatheredView,
) -> Result<GatheredView, &'static str>
    decreases parts, parts.len() - from,
{
    if 0 <= from < parts.len() {
        match gathered(parts[from], depth, so_far) {
            Ok(more) => gathered_all(parts, from + 1, depth, more),
            Err(e) => Err(e),
        }
    } else {
        Ok(so_far)
    }
}

/// A result with what was gathered taken as what it is.
pub open spec fn as_gathered(r: Result<Gathered, &'static str>) -> Result<
    GatheredView,
    &'static str,
> {
    match r {
        Ok(g) => Ok(g@),
        Err(e) => Err(e),
    }
}

fn walk_leaf(part: &Content, so_far: Gathered) -> (r: Result<Gathered, &'static str>)
    ensures
        as_gathered(r) == gathered_leaf(part@, so_far@),
{
    let ghost before = so_far@;
    let mut so_far = so_far;
    if is_attachment(part) {
        if so_far.attachments.len() >= MAX_OUTGOING_ATTACHMENTS {
            return Err("invalid_params");
        }
        match &part.raw {
            Some(bytes) => {
                let one = Attached {
                    filename: filename(part),
                    content_type: part.mime_type.clone(),
                    content: encode_standard(bytes.as_slice()),
                    size: bytes.len(),
                };
                let ghost view = one@;
                so_far.attachments.push(one);
                assert(so_far@.attachments =~= before.attachments.push(view));
            },
            None => return Err("invalid_params"),
        }
    } else if so_far.plain.is_none() && same(part.mime_type.as_str(), "text/plain") {
        match &part.text {
            Some(text) => {
                so_far.plain = Some(text.clone());
                assert(so_far@.attachments =~= before.attachments);
            },
            None => return Err("invalid_params"),
        }
    }
    Ok(so_far)
}

/// Gathers the plain text and the attachments of a part and of all the parts
/// below it.
pub fn walk_outgoing(part: &MailPart, depth: usize, so_far: Gathered) -> (r: Result<
    Gathered,
    &'static str,
>)
    ensures
        as_gathered(r) == gathered(part@, depth as nat, so_far@),
    decreases part,
{
    if depth > MAX_DEPTH {
        return Ok(so_far);
    }
    if part.subparts.len() == 0 {
        return walk_leaf(&part.content, so_far);
    }
    let ghost first = so_far@;
    let mut now = so_far;
    let ghost below = part@.subparts;
    for i in 0..part.subparts.len()
        invariant
            depth <= MAX_DEPTH,
            below == part@.subparts,
            below.len() == part.subparts@.len(),
            gathered_all(below, 0, (depth + 1) as nat, first) == gathered_all(
                below,
                i as int,
                (depth + 1) as nat,
                now@,
            ),
            first == so_far@,
            below.len() > 0,
    {
        assert(part.subparts@[i as int]@ == below[i as int]);
        assert(decreases_to!(part => part.subparts@[i as int]));
        match walk_outgoing(&part.subparts[i], depth + 1, now) {
            Ok(more) => {
                now = more;
            },
            Err(e) => return Err(e),
        }
    }
    Ok(now)
}

/// An attachment as a field of the send.
pub open spec fn attached_json(a: AttachedView) -> Json {
    Json::Record(
        Seq::empty().push(("filename"@, Json::Text(a.filename))).push(
            ("content_type"@, Json::Text(a.content_type)),
        ).push(("content"@, Json::Text(a.content))),
    )
}

/// How many bytes the first `n` attachments hold together.
pub open spec fn held_by(items: Seq<AttachedView>, n: int) -> nat
    decreases n,
{
    if n <= 0 {
        0
    } else {
        held_by(items, n - 1) + items[n - 1].size
    }
}

/// The fields of a send.
pub open spec fn send_json(
    recipient: Seq<char>,
    subject: Seq<char>,
    in_reply_to: Seq<char>,
    references: Seq<char>,
    g: GatheredView,
) -> Json {
    Json::Record(
        Seq::empty().push(("recipient"@, Json::Text(recipient))).push(
            ("subject"@, Json::Text(subject)),
        ).push(
            (
                "body"@,
                Json::Text(
                    match g.plain {
                        Some(text) => text,
                        None => Seq::empty(),
                    },
                ),
            ),
        ).push(("in_reply_to"@, text_or_null(in_reply_to))).push(
            ("references"@, text_or_null(references)),
        ).push(
            (
                "attachments"@,
                Json::List(g.attachments.map_values(|a: AttachedView| attached_json(a))),
            ),
        ),
    )
}

/// Nothing gathered yet.
pub open spec fn nothing() -> GatheredView {
    GatheredView { plain: None, attachments: Seq::empty() }
}

/// The fields of a send for a message with these lists of addresses, these
/// headers and this tree of parts, or why it is refused.
pub open spec fn send_of(
    named: Seq<Option<Seq<Seq<char>>>>,
    subject: Seq<char>,
    in_reply_to: Seq<char>,
    references: Seq<char>,
    mail: Part,
) -> Result<Json, &'static str> {
    match only_one(named) {
        Ok(recipient) => match gathered(mail, 0, nothing()) {
            Ok(g) => if held_by(g.attachments, g.attachments.len() as int)
                <= MAX_OUTGOING_ATTACHMENT_TOTAL {
                Ok(send_json(recipient, subject, in_reply_to, references, g))
            } else {
                Err("invalid_params")
            },
            Err(e) => Err(e),
        },
        Err(e) => Err(e),
    }
}

proof fn held_by_grows(items: Seq<AttachedView>, n: int)
    requires
        0 <= n <= items.len(),
    ensures
        held_by(items, n) <= held_by(items, items.len() as int),
    decreases items.len() - n,
{
    if n < items.len() {
        held_by_grows(items, n + 1);
    }
}

/// A message of which everything that its send needs is known.
#[derive(Debug, PartialEq)]
pub struct Outgoing {
    /// The addresses that each of its To, Cc and Bcc headers names, where they
    /// could be read.
    pub named: Vec<Option<Vec<String>>>,
    pub subject: String,
    pub in_reply_to: String,
    pub references: String,
    pub mail: MailPart,
}

/// The fields of a send for a message that was taken apart.
pub fn send_fields(message: &Outgoing) -> (r: Result<Value, &'static str>)
    ensures
        in_json(r) == send_of(
            lists_in(message.named@),
            message.subject@,
            message.in_reply_to@,
            message.references@,
            message.mail@,
        ),
{
    let recipient = single_recipient(&message.named)?;
    let none = Gathered { plain: None, attachments: Vec::new() };
    assert(none@ =~= nothing());
    let all = walk_outgoing(&message.mail, 0, none)?;
    let ghost items = all@.attachments;
    let count: usize = all.attachments.len();
    let mut total: usize = 0;
    let mut listed = Items::new();
    let ghost json = items.map_values(|a: AttachedView| attached_json(a));
    assert(json.take(0) =~= Seq::<Json>::empty());
    for i in 0..count
        invariant
            items == all@.attachments,
            count == all.attachments@.len(),
            json == items.map_values(|a: AttachedView| attached_json(a)),
            total == held_by(items, i as int),
            total <= MAX_OUTGOING_ATTACHMENT_TOTAL,
            listed@ == json.take(i as int),
            only_one(lists_in(message.named@)) == Ok::<Seq<char>, &'static str>(recipient@),
            gathered(message.mail@, 0, nothing()) == Ok::<GatheredView, &'static str>(all@),
    {
        let item = &all.attachments[i];
        assert(item@ == items[i as int]);
        proof {
            held_by_grows(items, i + 1);
        }
        if item.size > MAX_OUTGOING_ATTACHMENT_TOTAL - total {
            return Err("invalid_params");
        }
        total = total + item.size;
        listed = listed.with(
            Members::new().with("filename", Value::text(item.filename.as_str())).with(
                "content_type",
                Value::text(item.content_type.as_str()),
            ).with("content", Value::text(item.content.as_str())).object(),
        );
        assert(json.take(i + 1) =~= json.take(i as int).push(json[i as int]));
    }
    assert(json.take(count as int) =~= json);
    let body = match &all.plain {
        Some(text) => text.clone(),
        None => String::new(),
    };
    Ok(
        Members::new().with("recipient", Value::text(recipient.as_str())).with(
            "subject",
            Value::text(message.subject.as_str()),
        ).with("body", Value::text(body.as_str())).with(
            "in_reply_to",
            optional(message.in_reply_to.as_str()),
        ).with("references", optional(message.references.as_str())).with(
            "attachments",
            listed.array(),
        ).object(),
    )
}

/// The values of all the headers that name who a message goes to.
pub open spec fn address_headers(raw: Seq<u8>) -> Seq<Seq<char>> {
    all_headers(raw, "To"@) + all_headers(raw, "Cc"@) + all_headers(raw, "Bcc"@)
}

/// The fields of a send for a message as it goes over the wire, or why it is
/// refused.
pub open spec fn decoded(raw: Seq<u8>) -> Result<Json, &'static str> {
    match mail_parts(raw) {
        Some(lines) => send_of(
            addresses_in_each(address_headers(raw)),
            header_in(raw, "Subject"@),
            header_in(raw, "In-Reply-To"@),
            header_in(raw, "References"@),
            tree_of(lines),
        ),
        None => Err("invalid_params"),
    }
}

/// A complete RFC 822 message, taken apart into the fields of a send.
pub fn decode_outgoing(bytes: &[u8]) -> (r: Result<Value, &'static str>)
    ensures
        in_json(r) == decoded(bytes@),
{
    let lines = match parse_parts(bytes) {
        Some(lines) => lines,
        None => return Err("invalid_params"),
    };
    let mail = read_tree(lines);
    let mut values = read_headers(bytes, "To");
    values.append(&mut read_headers(bytes, "Cc"));
    values.append(&mut read_headers(bytes, "Bcc"));
    assert(texts_of(values@) =~= address_headers(bytes@));
    let message = Outgoing {
        named: addresses_of_each(&values),
        subject: header_value(bytes, "Subject"),
        in_reply_to: header_value(bytes, "In-Reply-To"),
        references: header_value(bytes, "References"),
        mail,
    };
    send_fields(&message)
}

/// No more attachments are gathered than one message may have.
pub proof fn no_more_attachments_than_allowed(part: Part, depth: nat, so_far: GatheredView)
    requires
        so_far.attachments.len() <= MAX_OUTGOING_ATTACHMENTS,
    ensures
        gathered(part, depth, so_far) is Ok ==> gathered(
            part,
            depth,
            so_far,
        )->Ok_0.attachments.len() <= MAX_OUTGOING_ATTACHMENTS,
    decreases part, 0int,
{
    if depth <= MAX_DEPTH && part.subparts.len() > 0 {
        no_more_than_allowed_in_all(part.subparts, 0, depth + 1, so_far);
    }
}

proof fn no_more_than_allowed_in_all(
    parts: Seq<Part>,
    from: int,
    depth: nat,
    so_far: GatheredView,
)
    requires
        so_far.attachments.len() <= MAX_OUTGOING_ATTACHMENTS,
    ensures
        gathered_all(parts, from, depth, so_far) is Ok ==> gathered_all(
            parts,
            from,
            depth,
            so_far,
        )->Ok_0.attachments.len() <= MAX_OUTGOING_ATTACHMENTS,
    decreases parts, parts.len() - from,
{
    if 0 <= from < parts.len() {
        no_more_attachments_than_allowed(parts[from], depth, so_far);
        if gathered(parts[from], depth, so_far) is Ok {
            no_more_than_allowed_in_all(
                parts,
                from + 1,
                depth,
                gathered(parts[from], depth, so_far)->Ok_0,
            );
        }
    }
}

/// The parts without parts of their own, in the order in which they stand,
/// down to the depth that is followed.
pub open spec fn leaves(part: Part, depth: nat) -> Seq<ContentView>
    decreases part, 0int,
{
    if depth > MAX_DEPTH {
        Seq::empty()
    } else if part.subparts.len() > 0 {
        leaves_of_all(part.subparts, 0, depth + 1)
    } else {
        Seq::empty().push(part.content)
    }
}

/// The leaves of the parts from an index on, one behind the other.
pub open spec fn leaves_of_all(parts: Seq<Part>, from: int, depth: nat) -> Seq<ContentView>
    decreases parts, parts.len() - from,
{
    if 0 <= from < parts.len() {
        leaves(parts[from], depth) + leaves_of_all(parts, from + 1, depth)
    } else {
        Seq::empty()
    }
}

/// What leaves add, one after the other, up to the first that is refused.
pub open spec fn gathered_leaves(
    parts: Seq<ContentView>,
    so_far: GatheredView,
) -> Result<GatheredView, &'static str>
    decreases parts.len(),
{
    if parts.len() == 0 {
        Ok(so_far)
    } else {
        match gathered_leaf(parts[0], so_far) {
            Ok(more) => gathered_leaves(parts.drop_first(), more),
            Err(e) => Err(e),
        }
    }
}

proof fn gathered_leaves_in_two(a: Seq<ContentView>, b: Seq<ContentView>, so_far: GatheredView)
    ensures
        gathered_leaves(a + b, so_far) == (match gathered_leaves(a, so_far) {
            Ok(more) => gathered_leaves(b, more),
            Err(e) => Err(e),
        }),
    decreases a.len(),
{
    if a.len() == 0 {
        assert(a + b =~= b);
    } else {
        assert((a + b).drop_first() =~= a.drop_first() + b);
        assert((a + b)[0] == a[0]);
        match gathered_leaf(a[0], so_far) {
            Ok(more) => {
                gathered_leaves_in_two(a.drop_first(), b, more);
            },
            Err(e) => {},
        }
    }
}

/// A message is gathered from its leaves in the order in which they stand,
/// wherever in the tree they stand, and from none below the depth that is
/// followed.
pub proof fn a_message_is_gathered_leaf_by_leaf(part: Part, depth: nat, so_far: GatheredView)
    ensures
        gathered(part, depth, so_far) == gathered_leaves(leaves(part, depth), so_far),
    decreases part, 0int,
{
    if depth <= MAX_DEPTH {
        if part.subparts.len() > 0 {
            all_are_gathered_leaf_by_leaf(part.subparts, 0, depth + 1, so_far);
        } else {
            let one = Seq::empty().push(part.content);
            assert(one.drop_first() =~= Seq::<ContentView>::empty());
            reveal_with_fuel(gathered_leaves, 2);
        }
    }
}

proof fn all_are_gathered_leaf_by_leaf(
    parts: Seq<Part>,
    from: int,
    depth: nat,
    so_far: GatheredView,
)
    ensures
        gathered_all(parts, from, depth, so_far) == gathered_leaves(
            leaves_of_all(parts, from, depth),
            so_far,
        ),
    decreases parts, parts.len() - from,
{
    if 0 <= from < parts.len() {
        a_message_is_gathered_leaf_by_leaf(parts[from], depth, so_far);
        gathered_leaves_in_two(
            leaves(parts[from], depth),
            leaves_of_all(parts, from + 1, depth),
            so_far,
        );
        match gathered(parts[from], depth, so_far) {
            Ok(more) => {
                all_are_gathered_leaf_by_leaf(parts, from + 1, depth, more);
            },
            Err(e) => {},
        }
    }
}

proof fn named_in_holds(lists: Seq<Option<Seq<Seq<char>>>>, n: int, i: int, k: int)
    requires
        0 <= i < n <= lists.len(),
        lists[i] is Some,
        0 <= k < lists[i]->0.len(),
    ensures
        named_in(lists, n).contains(lists[i]->0[k]),
    decreases n,
{
    let here = named_in(lists, n);
    let before = named_in(lists, n - 1);
    if i == n - 1 {
        assert(here[before.len() + k] == lists[i]->0[k]);
    } else {
        named_in_holds(lists, n - 1, i, k);
        let j = choose|j: int| 0 <= j < before.len() && before[j] == lists[i]->0[k];
        assert(here[j] == lists[i]->0[k]);
    }
}

/// Nobody whom the sender named is left out: of a message that is sent every
/// To, Cc and Bcc header was read, however many there are of each, and every
/// address in any of them is the one recipient that it goes to.
pub proof fn nobody_named_is_left_out(raw: Seq<u8>)
    requires
        decoded(raw) is Ok,
    ensures
        decoded(raw)->Ok_0.at("recipient"@) is Text,
        named_in(
            addresses_in_each(address_headers(raw)),
            address_headers(raw).len() as int,
        ).len() == 1,
        forall|i: int|
            0 <= i < address_headers(raw).len() ==> addresses_in(
                #[trigger] address_headers(raw)[i],
            ) is Some,
        forall|i: int, k: int|
            0 <= i < address_headers(raw).len() && 0 <= k < addresses_in(
                address_headers(raw)[i],
            )->0.len() ==> #[trigger] addresses_in(address_headers(raw)[i])->0[k]
                == decoded(raw)->Ok_0.at("recipient"@)->Text_0,
{
    let values = address_headers(raw);
    let lists = addresses_in_each(values);
    let all = named_in(lists, lists.len() as int);
    let json = decoded(raw)->Ok_0;
    assert(json->Record_0[0] == ("recipient"@, Json::Text(all[0])));
    assert forall|i: int| 0 <= i < values.len() implies addresses_in(
        #[trigger] values[i],
    ) is Some by {
        assert(lists[i] is Some);
    }
    assert forall|i: int, k: int|
        0 <= i < values.len() && 0 <= k < addresses_in(
            values[i],
        )->0.len() implies #[trigger] addresses_in(values[i])->0[k]
        == json.at("recipient"@)->Text_0 by {
        assert(lists[i] is Some);
        named_in_holds(lists, lists.len() as int, i, k);
    }
}

/// How many of some leaves are attachments.
pub open spec fn attached_count(parts: Seq<ContentView>) -> nat
    decreases parts.len(),
{
    if parts.len() == 0 {
        0
    } else {
        attached_count(parts.drop_first()) + (if is_attached(parts[0]) {
            1nat
        } else {
            0
        })
    }
}

/// How many bytes the attachments among some leaves hold together, once their
/// transfer encoding is undone.
pub open spec fn decoded_total(parts: Seq<ContentView>) -> nat
    decreases parts.len(),
{
    if parts.len() == 0 {
        0
    } else {
        decoded_total(parts.drop_first()) + (if is_attached(parts[0]) && parts[0].raw is Some {
            parts[0].raw->0.len()
        } else {
            0
        })
    }
}

/// Whether what is taken of a leaf could be decoded.
pub open spec fn decodable(part: ContentView) -> bool {
    if is_attached(part) {
        part.raw is Some
    } else {
        part.mime_type == "text/plain"@ ==> part.text is Some
    }
}

proof fn held_by_push(items: Seq<AttachedView>, item: AttachedView, n: int)
    requires
        0 <= n <= items.len(),
    ensures
        held_by(items.push(item), n) == held_by(items, n),
    decreases n,
{
    if n > 0 {
        held_by_push(items, item, n - 1);
    }
}

proof fn gathered_leaves_hold(parts: Seq<ContentView>, so_far: GatheredView)
    ensures
        gathered_leaves(parts, so_far) is Ok ==> ({
            let after = gathered_leaves(parts, so_far)->Ok_0.attachments;
            &&& after.len() == so_far.attachments.len() + attached_count(parts)
            &&& held_by(after, after.len() as int) == held_by(
                so_far.attachments,
                so_far.attachments.len() as int,
            ) + decoded_total(parts)
        }),
        (forall|i: int| 0 <= i < parts.len() ==> decodable(#[trigger] parts[i]))
            && so_far.attachments.len() + attached_count(parts) <= MAX_OUTGOING_ATTACHMENTS
            ==> gathered_leaves(parts, so_far) is Ok,
    decreases parts.len(),
{
    if parts.len() > 0 {
        let rest = parts.drop_first();
        let items = so_far.attachments;
        if forall|i: int| 0 <= i < parts.len() ==> decodable(#[trigger] parts[i]) {
            assert(decodable(parts[0]));
            assert forall|i: int| 0 <= i < rest.len() implies decodable(#[trigger] rest[i]) by {
                assert(rest[i] == parts[i + 1]);
            }
        }
        match gathered_leaf(parts[0], so_far) {
            Ok(more) => {
                gathered_leaves_hold(rest, more);
                if is_attached(parts[0]) {
                    held_by_push(items, more.attachments.last(), items.len() as int);
                    assert(more.attachments =~= items.push(more.attachments.last()));
                }
            },
            Err(e) => {},
        }
    }
}

/// Attachments are capped by what they hold once they are decoded: a message
/// to one recipient, with all that is taken of it decodable and no more
/// attachments than allowed, is sent where they hold no more bytes than the
/// cap together, and is refused where they hold more.
pub proof fn attachments_are_capped_by_what_they_hold(
    named: Seq<Option<Seq<Seq<char>>>>,
    subject: Seq<char>,
    in_reply_to: Seq<char>,
    references: Seq<char>,
    mail: Part,
)
    requires
        only_one(named) is Ok,
        forall|i: int| 0 <= i < leaves(mail, 0).len() ==> decodable(#[trigger] leaves(mail, 0)[i]),
        attached_count(leaves(mail, 0)) <= MAX_OUTGOING_ATTACHMENTS,
    ensures
        decoded_total(leaves(mail, 0)) <= MAX_OUTGOING_ATTACHMENT_TOTAL ==> send_of(
            named,
            subject,
            in_reply_to,
            references,
            mail,
        ) is Ok,
        decoded_total(leaves(mail, 0)) > MAX_OUTGOING_ATTACHMENT_TOTAL ==> send_of(
            named,
            subject,
            in_reply_to,
            references,
            mail,
        ) == Err::<Json, &'static str>("invalid_params"),
{
    a_message_is_gathered_leaf_by_leaf(mail, 0, nothing());
    gathered_leaves_hold(leaves(mail, 0), nothing());
}

} // verus!
