//! What an event contributes to the history: its content, its content address and the blob files
//! that hold what is too large for a row.

use crate::cf_html::parse_cf_html;
use crate::digest::content_address;
use crate::json::to_json;
use crate::rows::{ClipEvent, ClipRow};
use crate::text::blank;
use vstd::prelude::*;
use vstd::string::*;
use vstd::utf8::*;

verus! {

/// The content of an event. Text comes before a bitmap, and a bitmap before a list of files.
pub enum ContentView {
    Text(Seq<char>),
    Image(Seq<u8>),
    Files(Seq<Seq<char>>),
}

/// The content of an event; `None` where it has nothing, or a text of whitespace alone.
pub open spec fn content(ev: crate::rows::EventView) -> Option<ContentView> {
    match ev.text {
        Some(t) => if crate::text::is_blank(t) {
            None
        } else {
            Some(ContentView::Text(t))
        },
        None => match ev.dib {
            Some(d) => Some(ContentView::Image(d)),
            None => match ev.files {
                Some(f) => Some(ContentView::Files(f)),
                None => None,
            },
        },
    }
}

/// The document that accompanies an event.
pub open spec fn document(ev: crate::rows::EventView) -> Option<Seq<char>> {
    match ev.html {
        Some(raw) => crate::cf_html::cf_html_document(raw),
        None => None,
    }
}

/// The name of the blob file that holds `data`.
pub open spec fn blob_name(data: Seq<u8>, extension: Seq<char>) -> Seq<char> {
    crate::digest::address_of(data) + extension
}

/// The path of the blob file that holds an event's document.
pub open spec fn html_path_of(dir: Seq<char>, ev: crate::rows::EventView) -> Option<Seq<char>> {
    match document(ev) {
        Some(doc) => Some(dir + blob_name(encode_utf8(doc), ".html"@)),
        None => None,
    }
}

/// What the content address of an event is computed from: a text together with the document on
/// disk, a bitmap, or the JSON text of a list of files.
pub open spec fn address_input(c: ContentView, html_on_disk: Option<Seq<u8>>) -> Seq<u8> {
    match c {
        ContentView::Text(t) => encode_utf8(t) + match html_on_disk {
            Some(extra) => extra,
            None => seq![],
        },
        ContentView::Image(d) => d,
        ContentView::Files(f) => encode_utf8(crate::json::json_array(f)),
    }
}

/// The content address of an event, by which the history tells duplicates. The document on disk
/// counts only where the event has a document.
pub open spec fn event_hash(
    ev: crate::rows::EventView,
    c: ContentView,
    html_on_disk: Option<Seq<u8>>,
) -> Seq<char> {
    let extra = if document(ev) is Some {
        html_on_disk
    } else {
        None
    };
    crate::digest::address_of(address_input(c, extra))
}

/// The row of a new clip.
pub open spec fn new_clip(
    dir: Seq<char>,
    ev: crate::rows::EventView,
    c: ContentView,
    html_on_disk: Option<Seq<u8>>,
    id: i64,
) -> crate::rows::ClipView {
    crate::rows::ClipView {
        id,
        ts: ev.ts,
        kind: match c {
            ContentView::Text(_) => "text"@,
            ContentView::Image(_) => "image"@,
            ContentView::Files(_) => "files"@,
        },
        text: match c {
            ContentView::Text(t) => Some(t),
            _ => None,
        },
        image_path: match c {
            ContentView::Image(d) => Some(dir + blob_name(d, ".dib"@)),
            _ => None,
        },
        files_json: match c {
            ContentView::Files(f) => Some(crate::json::json_array(f)),
            _ => None,
        },
        html_path: html_path_of(dir, ev),
        hash: event_hash(ev, c, html_on_disk),
        size: match c {
            ContentView::Text(t) => encode_utf8(t).len() as i64,
            ContentView::Image(d) => d.len() as i64,
            ContentView::Files(f) => f.len() as i64,
        },
        pinned: false,
    }
}

/// A document to be written to a blob file.
#[derive(Debug)]
pub struct HtmlBlob {
    pub name: String,
    pub path: String,
    pub body: String,
}

/// The blob files of a bitmap: the bitmap itself, and a PNG copy for display.
#[derive(Debug)]
pub struct ImageBlob {
    pub dib_name: String,
    pub dib_path: String,
    pub png_name: String,
}

/// The blob files that belong to an event.
#[derive(Debug)]
pub struct EventBlobs {
    pub html: Option<HtmlBlob>,
    pub image: Option<ImageBlob>,
}

fn named(address: &String, extension: &str) -> (res: String)
    ensures
        res@ == address@ + extension@,
{
    let mut out = address.clone();
    out.append(extension);
    out
}

fn in_dir(dir: &str, name: &String) -> (res: String)
    ensures
        res@ == dir@ + name@,
{
    let mut out = dir.to_owned();
    out.append(name.as_str());
    out
}

/// The blob file for the document of an event.
pub fn html_blob(dir: &str, ev: &ClipEvent) -> (res: Option<HtmlBlob>)
    ensures
        match res {
            Some(b) => document(ev@) == Some(b.body@) && b.name@ == blob_name(
                encode_utf8(b.body@),
                ".html"@,
            ) && b.path@ == dir@ + b.name@,
            None => document(ev@) is None,
        },
{
    match &ev.html {
        Some(raw) => match parse_cf_html(raw.as_slice()) {
            Some(body) => {
                let name = named(&content_address(body.as_str().as_bytes()), ".html");
                let path = in_dir(dir, &name);
                Some(HtmlBlob { name, path, body })
            },
            None => None,
        },
        None => None,
    }
}

/// The blob files for a bitmap.
pub fn image_blob(dir: &str, dib: &Vec<u8>) -> (res: ImageBlob)
    ensures
        res.dib_name@ == blob_name(dib@, ".dib"@),
        res.dib_path@ == dir@ + res.dib_name@,
        res.png_name@ == blob_name(dib@, ".png"@),
{
    let address = content_address(dib.as_slice());
    let dib_name = named(&address, ".dib");
    let dib_path = in_dir(dir, &dib_name);
    ImageBlob { dib_name, dib_path, png_name: named(&address, ".png") }
}

/// The blob files that belong to an event. A document has one even where the event's text is
/// blank; a bitmap has them where it is the event's content.
pub fn event_blobs(dir: &str, ev: &ClipEvent) -> (res: EventBlobs)
    ensures
        match res.html {
            Some(b) => document(ev@) == Some(b.body@) && b.name@ == blob_name(
                encode_utf8(b.body@),
                ".html"@,
            ) && b.path@ == dir@ + b.name@,
            None => document(ev@) is None,
        },
        match (res.image, content(ev@)) {
            (Some(b), Some(ContentView::Image(d))) => b.dib_name@ == blob_name(d, ".dib"@)
                && b.dib_path@ == dir@ + b.dib_name@ && b.png_name@ == blob_name(d, ".png"@),
            (Some(_), _) => false,
            (None, c) => !(c matches Some(ContentView::Image(_))),
        },
{
    let html = html_blob(dir, ev);
    let image = match (&ev.text, &ev.dib) {
        (None, Some(dib)) => Some(image_blob(dir, dib)),
        _ => None,
    };
    EventBlobs { html, image }
}

/// `a` followed by `b`.
pub fn concat_bytes(a: &[u8], b: &[u8]) -> (res: Vec<u8>)
    ensures
        res@ == a@ + b@,
{
    let mut out: Vec<u8> = Vec::new();
    for i in 0..a.len()
        invariant
            out@ == a@.take(i as int),
    {
        out.push(a[i]);
        assert(out@ =~= a@.take(i + 1));
    }
    assert(out@ =~= a@);
    for i in 0..b.len()
        invariant
            out@ == a@ + b@.take(i as int),
    {
        out.push(b[i]);
        assert(out@ =~= a@ + b@.take(i + 1));
    }
    assert(out@ =~= a@ + b@);
    out
}

/// The view of optional bytes.
pub open spec fn opt_bytes(b: Option<Vec<u8>>) -> Option<Seq<u8>> {
    match b {
        Some(b) => Some(b@),
        None => None,
    }
}

/// The row of a new clip, where the event has any content. `html_on_disk` is what the blob file
/// of the event's document holds, where it can be read.
pub fn build_clip(dir: &str, ev: &ClipEvent, html_on_disk: &Option<Vec<u8>>, id: i64) -> (res: Option<
    ClipRow,
>)
    ensures
        match (res, content(ev@)) {
            (Some(row), Some(c)) => row@ == new_clip(dir@, ev@, c, opt_bytes(*html_on_disk), id),
            (None, None) => true,
            _ => false,
        },
{
    let html_path = match html_blob(dir, ev) {
        Some(b) => Some(b.path),
        None => None,
    };
    if let Some(t) = &ev.text {
        if blank(t.as_str()) {
            return None;
        }
        let bytes = t.as_str().as_bytes();
        let hash = match (&html_path, html_on_disk) {
            (Some(_), Some(extra)) => content_address(
                concat_bytes(bytes, extra.as_slice()).as_slice(),
            ),
            _ => {
                assert(bytes@ + Seq::<u8>::empty() =~= bytes@);
                content_address(bytes)
            },
        };
        return Some(
            ClipRow {
                id,
                ts: ev.ts,
                kind: "text".to_owned(),
                text: Some(t.clone()),
                image_path: None,
                files_json: None,
                html_path,
                hash,
                size: bytes.len() as i64,
                pinned: false,
            },
        );
    }
    if let Some(d) = &ev.dib {
        let blob = image_blob(dir, d);
        return Some(
            ClipRow {
                id,
                ts: ev.ts,
                kind: "image".to_owned(),
                text: None,
                image_path: Some(blob.dib_path),
                files_json: None,
                html_path,
                hash: content_address(d.as_slice()),
                size: d.len() as i64,
                pinned: false,
            },
        );
    }
    if let Some(f) = &ev.files {
        let json = to_json(f);
        let hash = content_address(json.as_str().as_bytes());
        return Some(
            ClipRow {
                id,
                ts: ev.ts,
                kind: "files".to_owned(),
                text: None,
                image_path: None,
                files_json: Some(json),
                html_path,
                hash,
                size: f.len() as i64,
                pinned: false,
            },
        );
    }
    None
}

} // verus!
