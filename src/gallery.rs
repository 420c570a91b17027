//! The gallery record: the unit of ingestion and of the binary codec.

use vstd::prelude::*;
use crate::dates::{CalendarDate, Timestamp};
use crate::wire::{opt_view, views};

verus! {

/// One image file of a gallery.
#[derive(Debug, PartialEq)]
pub struct File {
    pub name: String,
    pub hash: String,
    pub width: i32,
    pub height: i32,
    pub hasavif: bool,
    pub haswebp: bool,
    pub hasjxl: bool,
    pub single: bool,
}

/// The model of a file entry: its texts as character sequences.
pub struct FileView {
    pub name: Seq<char>,
    pub hash: Seq<char>,
    pub width: i32,
    pub height: i32,
    pub hasavif: bool,
    pub haswebp: bool,
    pub hasjxl: bool,
    pub single: bool,
}

impl View for File {
    type V = FileView;

    open spec fn view(&self) -> FileView {
        FileView {
            name: self.name@,
            hash: self.hash@,
            width: self.width,
            height: self.height,
            hasavif: self.hasavif,
            haswebp: self.haswebp,
            hasjxl: self.hasjxl,
            single: self.single,
        }
    }
}

/// A translation of a gallery, in another language.
#[derive(Debug, PartialEq)]
pub struct Language {
    pub name: String,
    pub language_localname: String,
    pub url: String,
    pub galleryid: String,
}

/// The model of a language entry.
pub struct LanguageView {
    pub name: Seq<char>,
    pub language_localname: Seq<char>,
    pub url: Seq<char>,
    pub galleryid: Seq<char>,
}

impl View for Language {
    type V = LanguageView;

    open spec fn view(&self) -> LanguageView {
        LanguageView {
            name: self.name@,
            language_localname: self.language_localname@,
            url: self.url@,
            galleryid: self.galleryid@,
        }
    }
}

/// A name with the address of its listing page; the model of the artist,
/// group, character and parody entries.
pub struct NamedLinkView {
    pub name: Seq<char>,
    pub url: Seq<char>,
}

/// An artist credited on a gallery.
#[derive(Debug, PartialEq)]
pub struct Artist {
    pub artist: String,
    pub url: String,
}

impl View for Artist {
    type V = NamedLinkView;

    open spec fn view(&self) -> NamedLinkView {
        NamedLinkView { name: self.artist@, url: self.url@ }
    }
}

/// A group (circle) credited on a gallery.
#[derive(Debug, PartialEq)]
pub struct Group {
    pub group: String,
    pub url: String,
}

impl View for Group {
    type V = NamedLinkView;

    open spec fn view(&self) -> NamedLinkView {
        NamedLinkView { name: self.group@, url: self.url@ }
    }
}

/// A character that appears in a gallery.
#[derive(Debug, PartialEq)]
pub struct Character {
    pub character: String,
    pub url: String,
}

impl View for Character {
    type V = NamedLinkView;

    open spec fn view(&self) -> NamedLinkView {
        NamedLinkView { name: self.character@, url: self.url@ }
    }
}

/// The work that a gallery parodies.
#[derive(Debug, PartialEq)]
pub struct Parody {
    pub parody: String,
    pub url: String,
}

impl View for Parody {
    type V = NamedLinkView;

    open spec fn view(&self) -> NamedLinkView {
        NamedLinkView { name: self.parody@, url: self.url@ }
    }
}

/// A tag, with whether it is a male or a female tag.
#[derive(Debug, PartialEq)]
pub struct Tag {
    pub tag: String,
    pub url: String,
    pub male: bool,
    pub female: bool,
}

/// The model of a tag entry.
pub struct TagView {
    pub tag: Seq<char>,
    pub url: Seq<char>,
    pub male: bool,
    pub female: bool,
}

impl View for Tag {
    type V = TagView;

    open spec fn view(&self) -> TagView {
        TagView { tag: self.tag@, url: self.url@, male: self.male, female: self.female }
    }
}

/// A gallery record. Identifiers that sources give as numbers or as text are
/// held as text; flags that they give as numbers or text are held as `bool`.
/// The date is a timestamp with its offset, the publication date a calendar
/// date; both are written as normalized texts.
#[derive(Debug, PartialEq)]
pub struct Gallery {
    pub gallery_id: i32,
    pub title: String,
    pub date: Timestamp,
    pub files: Vec<File>,
    pub languages: Vec<Language>,
    pub scene_indexes: Vec<i32>,
    pub type_: String,
    pub id: String,
    pub related: Vec<String>,
    pub japanese_title: Option<String>,
    pub language: Option<String>,
    pub language_localname: Option<String>,
    pub language_url: Option<String>,
    pub video: Option<String>,
    pub videofilename: Option<String>,
    pub artists: Vec<Artist>,
    pub groups: Vec<Group>,
    pub characters: Vec<Character>,
    pub parodies: Vec<Parody>,
    pub tags: Vec<Tag>,
    pub gallery_url: Option<String>,
    pub date_published: Option<CalendarDate>,
    pub blocked: bool,
}

/// The model of a gallery record: texts as character sequences, lists as
/// sequences of entry models, optional texts as `Option`s of sequences.
pub struct GalleryView {
    pub gallery_id: i32,
    pub title: Seq<char>,
    pub date: Timestamp,
    pub files: Seq<FileView>,
    pub languages: Seq<LanguageView>,
    pub scene_indexes: Seq<i32>,
    pub type_: Seq<char>,
    pub id: Seq<char>,
    pub related: Seq<Seq<char>>,
    pub japanese_title: Option<Seq<char>>,
    pub language: Option<Seq<char>>,
    pub language_localname: Option<Seq<char>>,
    pub language_url: Option<Seq<char>>,
    pub video: Option<Seq<char>>,
    pub videofilename: Option<Seq<char>>,
    pub artists: Seq<NamedLinkView>,
    pub groups: Seq<NamedLinkView>,
    pub characters: Seq<NamedLinkView>,
    pub parodies: Seq<NamedLinkView>,
    pub tags: Seq<TagView>,
    pub gallery_url: Option<Seq<char>>,
    pub date_published: Option<CalendarDate>,
    pub blocked: bool,
}

impl View for Gallery {
    type V = GalleryView;

    open spec fn view(&self) -> GalleryView {
        GalleryView {
            gallery_id: self.gallery_id,
            title: self.title@,
            date: self.date,
            files: views(self.files@),
            languages: views(self.languages@),
            scene_indexes: views(self.scene_indexes@),
            type_: self.type_@,
            id: self.id@,
            related: views(self.related@),
            japanese_title: opt_view(self.japanese_title),
            language: opt_view(self.language),
            language_localname: opt_view(self.language_localname),
            language_url: opt_view(self.language_url),
            video: opt_view(self.video),
            videofilename: opt_view(self.videofilename),
            artists: views(self.artists@),
            groups: views(self.groups@),
            characters: views(self.characters@),
            parodies: views(self.parodies@),
            tags: views(self.tags@),
            gallery_url: opt_view(self.gallery_url),
            date_published: self.date_published,
            blocked: self.blocked,
        }
    }
}

} // verus!
