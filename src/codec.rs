//! The binary record codec: how a gallery and its entries are written, how
//! they are read back, and the proofs that reading undoes writing.

use vstd::prelude::*;
use vstd::seq_lib::lemma_concat_associative;
use crate::dates::{
    date_text, date_valid, lemma_date_text, lemma_timestamp_text, lemma_timestamp_text_len,
    lemma_utf8_len, parse_date, parse_date_text, parse_timestamp, parse_timestamp_text, timestamp_text,
    timestamp_valid, CalendarDate, Timestamp,
};
use crate::gallery::{
    Artist, Character, File, FileView, Gallery, GalleryView, Group, Language, LanguageView,
    NamedLinkView, Parody, Tag, TagView,
};
use crate::wire::{
    flag_byte, lemma_i32_word, lemma_le32, read_u32,
    le32, lemma_list, lemma_opt_text, list_fits, list_fits_exec, list_parse, list_wire,
    opt_text_fits, opt_text_fits_exec, opt_text_parse, opt_text_wire, opt_view, read_list,
    read_opt_text, suffix, views, word_of, write_list, write_opt_text, Wire,
};

verus! {

/// Two texts, one after the other.
pub open spec fn pair_wire(a: Seq<char>, b: Seq<char>) -> Seq<u8> {
    String::wire(a) + String::wire(b)
}

pub open spec fn pair_parse(b: Seq<u8>) -> Option<(NamedLinkView, Seq<u8>)> {
    match String::parse(b) {
        Some((x, r)) => match String::parse(r) {
            Some((y, r2)) => Some((NamedLinkView { name: x, url: y }, r2)),
            None => None,
        },
        None => None,
    }
}

pub open spec fn pair_fits(v: NamedLinkView) -> bool {
    String::fits(v.name) && String::fits(v.url)
}

proof fn lemma_pair(v: NamedLinkView, rest: Seq<u8>)
    requires
        pair_fits(v),
    ensures
        pair_parse(pair_wire(v.name, v.url) + rest) == Some((v, rest)),
{
    assert(pair_wire(v.name, v.url) + rest =~= String::wire(v.name) + (String::wire(v.url) + rest));
    String::lemma_parse_wire(v.name, String::wire(v.url) + rest);
    String::lemma_parse_wire(v.url, rest);
}

fn write_pair(a: &String, b: &String, out: &mut Vec<u8>)
    requires
        String::fits(a@),
        String::fits(b@),
    ensures
        final(out)@ == old(out)@ + pair_wire(a@, b@),
{
    a.write(out);
    b.write(out);
    assert(out@ =~= old(out)@ + pair_wire(a@, b@));
}

fn read_pair(b: &[u8], pos: usize) -> (r: Option<(String, String, usize)>)
    requires
        pos <= b@.len(),
    ensures
        match r {
            Some((x, y, p)) => pos <= p <= b@.len() && pair_parse(suffix(b@, pos as int))
                == Some((NamedLinkView { name: x@, url: y@ }, suffix(b@, p as int))),
            None => pair_parse(suffix(b@, pos as int)) is None,
        },
{
    match String::read(b, pos) {
        Some((x, pos1)) => match String::read(b, pos1) {
            Some((y, pos2)) => Some((x, y, pos2)),
            None => None,
        },
        None => None,
    }
}

impl Wire for Artist {
    open spec fn fits(v: NamedLinkView) -> bool {
        pair_fits(v)
    }

    open spec fn wire(v: NamedLinkView) -> Seq<u8> {
        pair_wire(v.name, v.url)
    }

    open spec fn parse(b: Seq<u8>) -> Option<(NamedLinkView, Seq<u8>)> {
        pair_parse(b)
    }

    proof fn lemma_parse_wire(v: NamedLinkView, rest: Seq<u8>) {
        lemma_pair(v, rest);
    }

    fn fits_exec(&self) -> (r: bool) {
        self.artist.fits_exec() && self.url.fits_exec()
    }

    fn write(&self, out: &mut Vec<u8>) {
        write_pair(&self.artist, &self.url, out);
    }

    fn read(b: &[u8], pos: usize) -> (r: Option<(Artist, usize)>) {
        match read_pair(b, pos) {
            Some((x, y, p)) => Some((Artist { artist: x, url: y }, p)),
            None => None,
        }
    }
}

impl Wire for Group {
    open spec fn fits(v: NamedLinkView) -> bool {
        pair_fits(v)
    }

    open spec fn wire(v: NamedLinkView) -> Seq<u8> {
        pair_wire(v.name, v.url)
    }

    open spec fn parse(b: Seq<u8>) -> Option<(NamedLinkView, Seq<u8>)> {
        pair_parse(b)
    }

    proof fn lemma_parse_wire(v: NamedLinkView, rest: Seq<u8>) {
        lemma_pair(v, rest);
    }

    fn fits_exec(&self) -> (r: bool) {
        self.group.fits_exec() && self.url.fits_exec()
    }

    fn write(&self, out: &mut Vec<u8>) {
        write_pair(&self.group, &self.url, out);
    }

    fn read(b: &[u8], pos: usize) -> (r: Option<(Group, usize)>) {
        match read_pair(b, pos) {
            Some((x, y, p)) => Some((Group { group: x, url: y }, p)),
            None => None,
        }
    }
}

impl Wire for Character {
    open spec fn fits(v: NamedLinkView) -> bool {
        pair_fits(v)
    }

    open spec fn wire(v: NamedLinkView) -> Seq<u8> {
        pair_wire(v.name, v.url)
    }

    open spec fn parse(b: Seq<u8>) -> Option<(NamedLinkView, Seq<u8>)> {
        pair_parse(b)
    }

    proof fn lemma_parse_wire(v: NamedLinkView, rest: Seq<u8>) {
        lemma_pair(v, rest);
    }

    fn fits_exec(&self) -> (r: bool) {
        self.character.fits_exec() && self.url.fits_exec()
    }

    fn write(&self, out: &mut Vec<u8>) {
        write_pair(&self.character, &self.url, out);
    }

    fn read(b: &[u8], pos: usize) -> (r: Option<(Character, usize)>) {
        match read_pair(b, pos) {
            Some((x, y, p)) => Some((Character { character: x, url: y }, p)),
            None => None,
        }
    }
}

impl Wire for Parody {
    open spec fn fits(v: NamedLinkView) -> bool {
        pair_fits(v)
    }

    open spec fn wire(v: NamedLinkView) -> Seq<u8> {
        pair_wire(v.name, v.url)
    }

    open spec fn parse(b: Seq<u8>) -> Option<(NamedLinkView, Seq<u8>)> {
        pair_parse(b)
    }

    proof fn lemma_parse_wire(v: NamedLinkView, rest: Seq<u8>) {
        lemma_pair(v, rest);
    }

    fn fits_exec(&self) -> (r: bool) {
        self.parody.fits_exec() && self.url.fits_exec()
    }

    fn write(&self, out: &mut Vec<u8>) {
        write_pair(&self.parody, &self.url, out);
    }

    fn read(b: &[u8], pos: usize) -> (r: Option<(Parody, usize)>) {
        match read_pair(b, pos) {
            Some((x, y, p)) => Some((Parody { parody: x, url: y }, p)),
            None => None,
        }
    }
}


/// A byte that holds a flag.
pub open spec fn is_flag(x: u8) -> bool {
    x == 0 || x == 1
}

impl Wire for Tag {
    open spec fn fits(v: TagView) -> bool {
        String::fits(v.tag) && String::fits(v.url)
    }

    open spec fn wire(v: TagView) -> Seq<u8> {
        pair_wire(v.tag, v.url) + seq![flag_byte(v.male), flag_byte(v.female)]
    }

    open spec fn parse(b: Seq<u8>) -> Option<(TagView, Seq<u8>)> {
        match pair_parse(b) {
            Some((p, r)) => if r.len() >= 2 && is_flag(r[0]) && is_flag(r[1]) {
                Some((TagView { tag: p.name, url: p.url, male: r[0] == 1, female: r[1] == 1 }, suffix(r, 2)))
            } else {
                None
            },
            None => None,
        }
    }

    proof fn lemma_parse_wire(v: TagView, rest: Seq<u8>) {
        let flags = seq![flag_byte(v.male), flag_byte(v.female)];
        let p = NamedLinkView { name: v.tag, url: v.url };
        assert(Self::wire(v) + rest =~= pair_wire(v.tag, v.url) + (flags + rest));
        lemma_pair(p, flags + rest);
        assert(suffix(flags + rest, 2) =~= rest);
    }

    fn fits_exec(&self) -> (r: bool) {
        self.tag.fits_exec() && self.url.fits_exec()
    }

    fn write(&self, out: &mut Vec<u8>) {
        write_pair(&self.tag, &self.url, out);
        self.male.write(out);
        self.female.write(out);
        assert(out@ =~= old(out)@ + Self::wire(self@));
    }

    fn read(b: &[u8], pos: usize) -> (r: Option<(Tag, usize)>) {
        match read_pair(b, pos) {
            Some((x, y, p)) => {
                if b.len() - p >= 2 && (b[p] == 0 || b[p] == 1) && (b[p + 1] == 0 || b[p + 1] == 1) {
                    assert(suffix(suffix(b@, p as int), 2) =~= suffix(b@, p + 2));
                    Some((Tag { tag: x, url: y, male: b[p] == 1, female: b[p + 1] == 1 }, p + 2))
                } else {
                    None
                }
            },
            None => None,
        }
    }
}

impl Wire for Language {
    open spec fn fits(v: LanguageView) -> bool {
        String::fits(v.name) && String::fits(v.language_localname) && String::fits(v.url)
            && String::fits(v.galleryid)
    }

    open spec fn wire(v: LanguageView) -> Seq<u8> {
        pair_wire(v.name, v.language_localname) + pair_wire(v.url, v.galleryid)
    }

    open spec fn parse(b: Seq<u8>) -> Option<(LanguageView, Seq<u8>)> {
        match pair_parse(b) {
            Some((p, r)) => match pair_parse(r) {
                Some((q, r2)) => Some((
                    LanguageView { name: p.name, language_localname: p.url, url: q.name, galleryid: q.url },
                    r2,
                )),
                None => None,
            },
            None => None,
        }
    }

    proof fn lemma_parse_wire(v: LanguageView, rest: Seq<u8>) {
        let p = NamedLinkView { name: v.name, url: v.language_localname };
        let q = NamedLinkView { name: v.url, url: v.galleryid };
        assert(Self::wire(v) + rest =~= pair_wire(p.name, p.url) + (pair_wire(q.name, q.url) + rest));
        lemma_pair(p, pair_wire(q.name, q.url) + rest);
        lemma_pair(q, rest);
    }

    fn fits_exec(&self) -> (r: bool) {
        self.name.fits_exec() && self.language_localname.fits_exec() && self.url.fits_exec()
            && self.galleryid.fits_exec()
    }

    fn write(&self, out: &mut Vec<u8>) {
        write_pair(&self.name, &self.language_localname, out);
        write_pair(&self.url, &self.galleryid, out);
        assert(out@ =~= old(out)@ + Self::wire(self@));
    }

    fn read(b: &[u8], pos: usize) -> (r: Option<(Language, usize)>) {
        match read_pair(b, pos) {
            Some((name, local, p)) => match read_pair(b, p) {
                Some((url, gid, q)) => Some((
                    Language { name: name, language_localname: local, url: url, galleryid: gid },
                    q,
                )),
                None => None,
            },
            None => None,
        }
    }
}

/// The fixed-size tail of a file entry: width, height and four flags.
pub open spec fn file_tail_wire(v: FileView) -> Seq<u8> {
    le32(v.width as u32) + le32(v.height as u32) + seq![
        flag_byte(v.hasavif),
        flag_byte(v.haswebp),
        flag_byte(v.hasjxl),
        flag_byte(v.single),
    ]
}

impl Wire for File {
    open spec fn fits(v: FileView) -> bool {
        String::fits(v.name) && String::fits(v.hash)
    }

    open spec fn wire(v: FileView) -> Seq<u8> {
        pair_wire(v.name, v.hash) + file_tail_wire(v)
    }

    open spec fn parse(b: Seq<u8>) -> Option<(FileView, Seq<u8>)> {
        match pair_parse(b) {
            Some((p, r)) => if r.len() >= 12 && is_flag(r[8]) && is_flag(r[9]) && is_flag(r[10])
                && is_flag(r[11]) {
                Some((
                    FileView {
                        name: p.name,
                        hash: p.url,
                        width: word_of(r) as i32,
                        height: word_of(suffix(r, 4)) as i32,
                        hasavif: r[8] == 1,
                        haswebp: r[9] == 1,
                        hasjxl: r[10] == 1,
                        single: r[11] == 1,
                    },
                    suffix(r, 12),
                ))
            } else {
                None
            },
            None => None,
        }
    }

    proof fn lemma_parse_wire(v: FileView, rest: Seq<u8>) {
        let p = NamedLinkView { name: v.name, url: v.hash };
        let t = file_tail_wire(v) + rest;
        assert(Self::wire(v) + rest =~= pair_wire(v.name, v.hash) + t);
        lemma_pair(p, t);
        lemma_le32(v.width as u32, suffix(t, 4));
        assert(t =~= le32(v.width as u32) + suffix(t, 4));
        lemma_le32(v.height as u32, suffix(t, 8));
        assert(suffix(t, 4) =~= le32(v.height as u32) + suffix(t, 8));
        assert(suffix(t, 12) =~= rest);
        lemma_i32_word(v.width);
        lemma_i32_word(v.height);
    }

    fn fits_exec(&self) -> (r: bool) {
        self.name.fits_exec() && self.hash.fits_exec()
    }

    fn write(&self, out: &mut Vec<u8>) {
        write_pair(&self.name, &self.hash, out);
        let ghost o1 = out@;
        self.width.write(out);
        self.height.write(out);
        self.hasavif.write(out);
        self.haswebp.write(out);
        self.hasjxl.write(out);
        self.single.write(out);
        assert(out@ =~= o1 + file_tail_wire(self@));
        proof { lemma_concat_associative(old(out)@, pair_wire(self.name@, self.hash@), file_tail_wire(self@)); }
    }

    fn read(b: &[u8], pos: usize) -> (r: Option<(File, usize)>) {
        match read_pair(b, pos) {
            Some((name, hash, p)) => {
                if b.len() - p < 12 {
                    return None;
                }
                let f8 = b[p + 8];
                let f9 = b[p + 9];
                let f10 = b[p + 10];
                let f11 = b[p + 11];
                if f8 > 1 || f9 > 1 || f10 > 1 || f11 > 1 {
                    return None;
                }
                let w = read_u32(b, p);
                let h = read_u32(b, p + 4);
                assert(suffix(suffix(b@, p as int), 4) =~= suffix(b@, p + 4));
                assert(suffix(suffix(b@, p as int), 12) =~= suffix(b@, p + 12));
                let file = File {
                    name: name,
                    hash: hash,
                    width: w as i32,
                    height: h as i32,
                    hasavif: f8 == 1,
                    haswebp: f9 == 1,
                    hasjxl: f10 == 1,
                    single: f11 == 1,
                };
                Some((file, p + 12))
            },
            None => None,
        }
    }
}


impl Wire for Timestamp {
    open spec fn fits(v: Timestamp) -> bool {
        timestamp_valid(v)
    }

    /// A timestamp is written as its normalized RFC 3339 text.
    open spec fn wire(v: Timestamp) -> Seq<u8> {
        String::wire(timestamp_text(v))
    }

    open spec fn parse(b: Seq<u8>) -> Option<(Timestamp, Seq<u8>)> {
        match String::parse(b) {
            Some((s, r)) => match parse_timestamp_text(s) {
                Some(t) => Some((t, r)),
                None => None,
            },
            None => None,
        }
    }

    proof fn lemma_parse_wire(v: Timestamp, rest: Seq<u8>) {
        lemma_timestamp_text_len(v);
        lemma_utf8_len(timestamp_text(v));
        String::lemma_parse_wire(timestamp_text(v), rest);
        lemma_timestamp_text(v);
    }

    fn fits_exec(&self) -> (r: bool) {
        self.is_valid()
    }

    fn write(&self, out: &mut Vec<u8>) {
        let text = self.to_text();
        proof {
            lemma_timestamp_text_len(*self);
            lemma_utf8_len(text@);
        }
        text.write(out);
    }

    fn read(b: &[u8], pos: usize) -> (r: Option<(Timestamp, usize)>) {
        match String::read(b, pos) {
            Some((s, p)) => match parse_timestamp(s.as_str()) {
                Some(t) => Some((t, p)),
                None => None,
            },
            None => None,
        }
    }
}

impl Wire for Option<CalendarDate> {
    open spec fn fits(v: Option<CalendarDate>) -> bool {
        v matches Some(d) ==> date_valid(d)
    }

    /// An absent date is one zero byte; a present one is a one byte and its
    /// normalized text `YYYY-MM-DD`.
    open spec fn wire(v: Option<CalendarDate>) -> Seq<u8> {
        match v {
            Some(d) => seq![1u8] + String::wire(date_text(d)),
            None => seq![0u8],
        }
    }

    open spec fn parse(b: Seq<u8>) -> Option<(Option<CalendarDate>, Seq<u8>)> {
        if b.len() >= 1 && b[0] == 0 {
            Some((None, suffix(b, 1)))
        } else if b.len() >= 1 && b[0] == 1 {
            match String::parse(suffix(b, 1)) {
                Some((s, r)) => match parse_date_text(s) {
                    Some(d) => Some((Some(d), r)),
                    None => None,
                },
                None => None,
            }
        } else {
            None
        }
    }

    proof fn lemma_parse_wire(v: Option<CalendarDate>, rest: Seq<u8>) {
        let b = Self::wire(v) + rest;
        match v {
            Some(d) => {
                lemma_date_text(d);
                lemma_utf8_len(date_text(d));
                assert(suffix(b, 1) =~= String::wire(date_text(d)) + rest);
                String::lemma_parse_wire(date_text(d), rest);
            },
            None => {
                assert(suffix(b, 1) =~= rest);
            },
        }
    }

    fn fits_exec(&self) -> (r: bool) {
        match self {
            Some(d) => d.is_valid(),
            None => true,
        }
    }

    fn write(&self, out: &mut Vec<u8>) {
        match self {
            Some(d) => {
                out.push(1);
                let text = d.to_text();
                proof {
                    lemma_date_text(*d);
                    lemma_utf8_len(text@);
                }
                text.write(out);
            },
            None => {
                out.push(0);
            },
        }
        assert(out@ =~= old(out)@ + Self::wire(*self));
    }

    fn read(b: &[u8], pos: usize) -> (r: Option<(Option<CalendarDate>, usize)>) {
        if pos >= b.len() {
            return None;
        }
        assert(suffix(suffix(b@, pos as int), 1) =~= suffix(b@, pos + 1));
        if b[pos] == 0 {
            Some((None, pos + 1))
        } else if b[pos] == 1 {
            match String::read(b, pos + 1) {
                Some((s, p)) => match parse_date(s.as_str()) {
                    Some(d) => Some((Some(d), p)),
                    None => None,
                },
                None => None,
            }
        } else {
            None
        }
    }
}

/// The leading fields: key, title, date, files, languages, scene indexes,
/// type, external id and related ids.
pub open spec fn core_wire(g: GalleryView, omit: bool) -> Seq<u8> {
    i32::wire(g.gallery_id) + (String::wire(g.title) + (Timestamp::wire(g.date) + (list_wire::<File>(
        g.files,
        omit,
    ) + (list_wire::<Language>(g.languages, omit) + (list_wire::<i32>(g.scene_indexes, omit) + (
    String::wire(g.type_) + (String::wire(g.id) + list_wire::<String>(g.related, omit))))))))
}

pub open spec fn core_fits(g: GalleryView) -> bool {
    &&& String::fits(g.title)
    &&& Timestamp::fits(g.date)
    &&& list_fits::<File>(g.files)
    &&& list_fits::<Language>(g.languages)
    &&& list_fits::<i32>(g.scene_indexes)
    &&& String::fits(g.type_)
    &&& String::fits(g.id)
    &&& list_fits::<String>(g.related)
}

pub open spec fn core_parse(b: Seq<u8>, acc: GalleryView) -> Option<(GalleryView, Seq<u8>)> {
    match i32::parse(b) {
        None => None,
        Some((gallery_id, b)) => match String::parse(b) {
            None => None,
            Some((title, b)) => match Timestamp::parse(b) {
                None => None,
                Some((date, b)) => match list_parse::<File>(b) {
                    None => None,
                    Some((files, b)) => match list_parse::<Language>(b) {
                        None => None,
                        Some((languages, b)) => match list_parse::<i32>(b) {
                            None => None,
                            Some((scene_indexes, b)) => match String::parse(b) {
                                None => None,
                                Some((type_, b)) => match String::parse(b) {
                                    None => None,
                                    Some((id, b)) => match list_parse::<String>(b) {
                                        None => None,
                                        Some((related, b)) => Some((
                                            GalleryView {
                                                gallery_id,
                                                title,
                                                date,
                                                files,
                                                languages,
                                                scene_indexes,
                                                type_,
                                                id,
                                                related,
                                                ..acc
                                            },
                                            b,
                                        )),
                                    },
                                },
                            },
                        },
                    },
                },
            },
        },
    }
}

#[verifier::spinoff_prover]
#[verifier::rlimit(40)]
proof fn lemma_core(g: GalleryView, omit: bool, rest: Seq<u8>, acc: GalleryView)
    requires
        core_fits(g),
    ensures
        core_parse(core_wire(g, omit) + rest, acc) == Some((
            GalleryView {
                gallery_id: g.gallery_id,
                title: g.title,
                date: g.date,
                files: g.files,
                languages: g.languages,
                scene_indexes: g.scene_indexes,
                type_: g.type_,
                id: g.id,
                related: g.related,
                ..acc
            },
            rest,
        )),
{
    let x9 = list_wire::<String>(g.related, omit);
    let x8 = String::wire(g.id) + x9;
    let x7 = String::wire(g.type_) + x8;
    let x6 = list_wire::<i32>(g.scene_indexes, omit) + x7;
    let x5 = list_wire::<Language>(g.languages, omit) + x6;
    let x4 = list_wire::<File>(g.files, omit) + x5;
    let x3 = Timestamp::wire(g.date) + x4;
    let x2 = String::wire(g.title) + x3;
    lemma_concat_associative(i32::wire(g.gallery_id), x2, rest);
    lemma_concat_associative(String::wire(g.title), x3, rest);
    lemma_concat_associative(Timestamp::wire(g.date), x4, rest);
    lemma_concat_associative(list_wire::<File>(g.files, omit), x5, rest);
    lemma_concat_associative(list_wire::<Language>(g.languages, omit), x6, rest);
    lemma_concat_associative(list_wire::<i32>(g.scene_indexes, omit), x7, rest);
    lemma_concat_associative(String::wire(g.type_), x8, rest);
    lemma_concat_associative(String::wire(g.id), x9, rest);
    i32::lemma_parse_wire(g.gallery_id, x2 + rest);
    String::lemma_parse_wire(g.title, x3 + rest);
    Timestamp::lemma_parse_wire(g.date, x4 + rest);
    lemma_list::<File>(g.files, omit, x5 + rest);
    lemma_list::<Language>(g.languages, omit, x6 + rest);
    lemma_list::<i32>(g.scene_indexes, omit, x7 + rest);
    String::lemma_parse_wire(g.type_, x8 + rest);
    String::lemma_parse_wire(g.id, x9 + rest);
    lemma_list::<String>(g.related, omit, rest);
}

/// The optional texts: localized title, language and its local name and
/// address, video and video file name.
pub open spec fn names_wire(g: GalleryView) -> Seq<u8> {
    opt_text_wire(g.japanese_title) + (opt_text_wire(g.language) + (opt_text_wire(
        g.language_localname,
    ) + (opt_text_wire(g.language_url) + (opt_text_wire(g.video) + opt_text_wire(
        g.videofilename,
    )))))
}

pub open spec fn names_fits(g: GalleryView) -> bool {
    &&& opt_text_fits(g.japanese_title)
    &&& opt_text_fits(g.language)
    &&& opt_text_fits(g.language_localname)
    &&& opt_text_fits(g.language_url)
    &&& opt_text_fits(g.video)
    &&& opt_text_fits(g.videofilename)
}

pub open spec fn names_parse(b: Seq<u8>, acc: GalleryView) -> Option<(GalleryView, Seq<u8>)> {
    match opt_text_parse(b) {
        None => None,
        Some((japanese_title, b)) => match opt_text_parse(b) {
            None => None,
            Some((language, b)) => match opt_text_parse(b) {
                None => None,
                Some((language_localname, b)) => match opt_text_parse(b) {
                    None => None,
                    Some((language_url, b)) => match opt_text_parse(b) {
                        None => None,
                        Some((video, b)) => match opt_text_parse(b) {
                            None => None,
                            Some((videofilename, b)) => Some((
                                GalleryView {
                                    japanese_title,
                                    language,
                                    language_localname,
                                    language_url,
                                    video,
                                    videofilename,
                                    ..acc
                                },
                                b,
                            )),
                        },
                    },
                },
            },
        },
    }
}

#[verifier::spinoff_prover]
#[verifier::rlimit(40)]
proof fn lemma_names(g: GalleryView, rest: Seq<u8>, acc: GalleryView)
    requires
        names_fits(g),
    ensures
        names_parse(names_wire(g) + rest, acc) == Some((
            GalleryView {
                japanese_title: g.japanese_title,
                language: g.language,
                language_localname: g.language_localname,
                language_url: g.language_url,
                video: g.video,
                videofilename: g.videofilename,
                ..acc
            },
            rest,
        )),
{
    let x6 = opt_text_wire(g.videofilename);
    let x5 = opt_text_wire(g.video) + x6;
    let x4 = opt_text_wire(g.language_url) + x5;
    let x3 = opt_text_wire(g.language_localname) + x4;
    let x2 = opt_text_wire(g.language) + x3;
    lemma_concat_associative(opt_text_wire(g.japanese_title), x2, rest);
    lemma_concat_associative(opt_text_wire(g.language), x3, rest);
    lemma_concat_associative(opt_text_wire(g.language_localname), x4, rest);
    lemma_concat_associative(opt_text_wire(g.language_url), x5, rest);
    lemma_concat_associative(opt_text_wire(g.video), x6, rest);
    lemma_opt_text(g.japanese_title, x2 + rest);
    lemma_opt_text(g.language, x3 + rest);
    lemma_opt_text(g.language_localname, x4 + rest);
    lemma_opt_text(g.language_url, x5 + rest);
    lemma_opt_text(g.video, x6 + rest);
    lemma_opt_text(g.videofilename, rest);
}

/// The entry lists: artists, groups, characters, parodies and tags.
pub open spec fn people_wire(g: GalleryView, omit: bool) -> Seq<u8> {
    list_wire::<Artist>(g.artists, omit) + (list_wire::<Group>(g.groups, omit) + (list_wire::<
        Character,
    >(g.characters, omit) + (list_wire::<Parody>(g.parodies, omit) + list_wire::<Tag>(
        g.tags,
        omit,
    ))))
}

pub open spec fn people_fits(g: GalleryView) -> bool {
    &&& list_fits::<Artist>(g.artists)
    &&& list_fits::<Group>(g.groups)
    &&& list_fits::<Character>(g.characters)
    &&& list_fits::<Parody>(g.parodies)
    &&& list_fits::<Tag>(g.tags)
}

pub open spec fn people_parse(b: Seq<u8>, acc: GalleryView) -> Option<(GalleryView, Seq<u8>)> {
    match list_parse::<Artist>(b) {
        None => None,
        Some((artists, b)) => match list_parse::<Group>(b) {
            None => None,
            Some((groups, b)) => match list_parse::<Character>(b) {
                None => None,
                Some((characters, b)) => match list_parse::<Parody>(b) {
                    None => None,
                    Some((parodies, b)) => match list_parse::<Tag>(b) {
                        None => None,
                        Some((tags, b)) => Some((
                            GalleryView { artists, groups, characters, parodies, tags, ..acc },
                            b,
                        )),
                    },
                },
            },
        },
    }
}

#[verifier::spinoff_prover]
#[verifier::rlimit(40)]
proof fn lemma_people(g: GalleryView, omit: bool, rest: Seq<u8>, acc: GalleryView)
    requires
        people_fits(g),
    ensures
        people_parse(people_wire(g, omit) + rest, acc) == Some((
            GalleryView {
                artists: g.artists,
                groups: g.groups,
                characters: g.characters,
                parodies: g.parodies,
                tags: g.tags,
                ..acc
            },
            rest,
        )),
{
    let x5 = list_wire::<Tag>(g.tags, omit);
    let x4 = list_wire::<Parody>(g.parodies, omit) + x5;
    let x3 = list_wire::<Character>(g.characters, omit) + x4;
    let x2 = list_wire::<Group>(g.groups, omit) + x3;
    lemma_concat_associative(list_wire::<Artist>(g.artists, omit), x2, rest);
    lemma_concat_associative(list_wire::<Group>(g.groups, omit), x3, rest);
    lemma_concat_associative(list_wire::<Character>(g.characters, omit), x4, rest);
    lemma_concat_associative(list_wire::<Parody>(g.parodies, omit), x5, rest);
    lemma_list::<Artist>(g.artists, omit, x2 + rest);
    lemma_list::<Group>(g.groups, omit, x3 + rest);
    lemma_list::<Character>(g.characters, omit, x4 + rest);
    lemma_list::<Parody>(g.parodies, omit, x5 + rest);
    lemma_list::<Tag>(g.tags, omit, rest);
}

/// The trailing fields: gallery address, publication date and the blocked flag.
pub open spec fn tail_wire(g: GalleryView) -> Seq<u8> {
    opt_text_wire(g.gallery_url) + (Option::<CalendarDate>::wire(g.date_published) + bool::wire(g.blocked))
}

pub open spec fn tail_fits(g: GalleryView) -> bool {
    opt_text_fits(g.gallery_url) && Option::<CalendarDate>::fits(g.date_published)
}

pub open spec fn tail_parse(b: Seq<u8>, acc: GalleryView) -> Option<(GalleryView, Seq<u8>)> {
    match opt_text_parse(b) {
        None => None,
        Some((gallery_url, b)) => match Option::<CalendarDate>::parse(b) {
            None => None,
            Some((date_published, b)) => match bool::parse(b) {
                None => None,
                Some((blocked, b)) => Some((
                    GalleryView { gallery_url, date_published, blocked, ..acc },
                    b,
                )),
            },
        },
    }
}

proof fn lemma_tail(g: GalleryView, rest: Seq<u8>, acc: GalleryView)
    requires
        tail_fits(g),
    ensures
        tail_parse(tail_wire(g) + rest, acc) == Some((
            GalleryView {
                gallery_url: g.gallery_url,
                date_published: g.date_published,
                blocked: g.blocked,
                ..acc
            },
            rest,
        )),
{
    let x3 = bool::wire(g.blocked);
    let x2 = Option::<CalendarDate>::wire(g.date_published) + x3;
    lemma_concat_associative(opt_text_wire(g.gallery_url), x2, rest);
    lemma_concat_associative(Option::<CalendarDate>::wire(g.date_published), x3, rest);
    lemma_opt_text(g.gallery_url, x2 + rest);
    Option::<CalendarDate>::lemma_parse_wire(g.date_published, x3 + rest);
    bool::lemma_parse_wire(g.blocked, rest);
}


/// What went wrong in writing or reading a record.
#[derive(Clone, Copy, Debug, PartialEq, Eq, Structural)]
pub enum CodecErrorKind {
    /// The bytes do not open with the record format's mark and a version.
    UnsupportedFormat,
    /// The bytes break the layout: cut short, a bad flag or count, text that
    /// is not UTF-8, a date text that is not a valid normalized date, or
    /// bytes left over after a version 1 record.
    Malformed,
    /// The record's timestamp is out of range: a date outside the years 0 to
    /// 9999 or not in the calendar, a time of day out of range, or an offset
    /// of a day or more.
    InvalidTimestamp,
    /// The record's publication date is outside the years 0 to 9999 or not
    /// in the calendar.
    InvalidDate,
    /// A text or a list is too long for its 32-bit length.
    TooLarge,
}

/// A codec failure, with the key of the record where it is known.
#[derive(Clone, Copy, Debug, PartialEq, Eq, Structural)]
pub struct CodecError {
    pub gallery_id: Option<i32>,
    pub kind: CodecErrorKind,
}

/// Every text and list of the record fits its 32-bit length.
pub open spec fn gallery_fits(g: GalleryView) -> bool {
    core_fits(g) && names_fits(g) && people_fits(g) && tail_fits(g)
}

/// A record that can be written and read back: its dates are valid and
/// every text and list fits its 32-bit length.
pub open spec fn valid_gallery(g: GalleryView) -> bool {
    gallery_fits(g)
}

/// The mark and version that open every record written here: `GAL` and
/// version 1. Later versions may only append fields.
pub open spec fn header() -> Seq<u8> {
    seq![0x47u8, 0x41u8, 0x4cu8, 1u8]
}

/// The bytes of a record. Where `omit` holds, each empty list is left out
/// (one zero byte) instead of written with a count of zero.
pub open spec fn gallery_wire(g: GalleryView, omit: bool) -> Seq<u8> {
    header() + (core_wire(g, omit) + (names_wire(g) + (people_wire(g, omit) + tail_wire(g))))
}

/// Reads the fields of a record, in order, over `acc`.
pub open spec fn body_parse(b: Seq<u8>, acc: GalleryView) -> Option<(GalleryView, Seq<u8>)> {
    match core_parse(b, acc) {
        None => None,
        Some((a, b)) => match names_parse(b, a) {
            None => None,
            Some((a, b)) => match people_parse(b, a) {
                None => None,
                Some((a, b)) => tail_parse(b, a),
            },
        },
    }
}

/// The record that reading starts from; reading sets every field.
pub open spec fn blank_timestamp() -> Timestamp {
    Timestamp {
        date: CalendarDate { year: 0, month: 1, day: 1 },
        hour: 0,
        minute: 0,
        second: 0,
        nanosecond: 0,
        offset_minutes: 0,
    }
}

pub open spec fn blank_gallery() -> GalleryView {
    GalleryView {
        gallery_id: 0,
        title: seq![],
        date: blank_timestamp(),
        files: seq![],
        languages: seq![],
        scene_indexes: seq![],
        type_: seq![],
        id: seq![],
        related: seq![],
        japanese_title: None,
        language: None,
        language_localname: None,
        language_url: None,
        video: None,
        videofilename: None,
        artists: seq![],
        groups: seq![],
        characters: seq![],
        parodies: seq![],
        tags: seq![],
        gallery_url: None,
        date_published: None,
        blocked: false,
    }
}

/// The bytes open with the mark `GAL` and a version of 1 or later.
pub open spec fn has_header(b: Seq<u8>) -> bool {
    b.len() >= 4 && b[0] == 0x47 && b[1] == 0x41 && b[2] == 0x4c && b[3] >= 1
}

/// What reading a byte sequence gives: the record, or the kind of failure.
pub open spec fn decoded(b: Seq<u8>) -> Result<GalleryView, CodecErrorKind> {
    if !has_header(b) {
        Err(CodecErrorKind::UnsupportedFormat)
    } else {
        match body_parse(suffix(b, 4), blank_gallery()) {
            None => Err(CodecErrorKind::Malformed),
            Some((g, rest)) => if rest.len() > 0 && b[3] == 1 {
                Err(CodecErrorKind::Malformed)
            } else {
                Ok(g)
            },
        }
    }
}

/// The key that a byte sequence names, where its mark and key can be read.
pub open spec fn key_in(b: Seq<u8>) -> Option<i32> {
    if has_header(b) && b.len() >= 8 {
        Some(word_of(suffix(b, 4)) as i32)
    } else {
        None
    }
}

/// Why a record cannot be written, if it cannot.
pub open spec fn encode_failure(g: GalleryView) -> Option<CodecErrorKind> {
    if !timestamp_valid(g.date) {
        Some(CodecErrorKind::InvalidTimestamp)
    } else if g.date_published matches Some(d) && !date_valid(d) {
        Some(CodecErrorKind::InvalidDate)
    } else if !gallery_fits(g) {
        Some(CodecErrorKind::TooLarge)
    } else {
        None
    }
}

proof fn lemma_split_header(body: Seq<u8>)
    ensures
        has_header(header() + body),
        (header() + body)[3] == 1,
        suffix(header() + body, 4) == body,
{
    let b = header() + body;
    assert(b[0] == 0x47 && b[1] == 0x41 && b[2] == 0x4c && b[3] == 1);
    assert(suffix(b, 4) =~= body);
}

#[verifier::spinoff_prover]
#[verifier::rlimit(40)]
proof fn lemma_body(g: GalleryView, omit: bool, rest: Seq<u8>, acc: GalleryView)
    requires
        gallery_fits(g),
    ensures
        body_parse(core_wire(g, omit) + (names_wire(g) + (people_wire(g, omit) + tail_wire(g))) + rest, acc)
            == Some((g, rest)),
{
    let x3 = people_wire(g, omit) + tail_wire(g);
    let x2 = names_wire(g) + x3;
    lemma_concat_associative(core_wire(g, omit), x2, rest);
    lemma_concat_associative(names_wire(g), x3, rest);
    lemma_concat_associative(people_wire(g, omit), tail_wire(g), rest);
    lemma_core(g, omit, x2 + rest, acc);
    let a1 = GalleryView {
        gallery_id: g.gallery_id,
        title: g.title,
        date: g.date,
        files: g.files,
        languages: g.languages,
        scene_indexes: g.scene_indexes,
        type_: g.type_,
        id: g.id,
        related: g.related,
        ..acc
    };
    lemma_names(g, x3 + rest, a1);
    let a2 = GalleryView {
        japanese_title: g.japanese_title,
        language: g.language,
        language_localname: g.language_localname,
        language_url: g.language_url,
        video: g.video,
        videofilename: g.videofilename,
        ..a1
    };
    lemma_people(g, omit, tail_wire(g) + rest, a2);
    let a3 = GalleryView {
        artists: g.artists,
        groups: g.groups,
        characters: g.characters,
        parodies: g.parodies,
        tags: g.tags,
        ..a2
    };
    lemma_tail(g, rest, a3);
}

/// Reading the bytes written for a valid record gives that record back,
/// field for field, with lists in their order and absent texts absent; this
/// holds whether or not empty lists were left out in writing.
#[verifier::spinoff_prover]
#[verifier::rlimit(40)]
pub proof fn lemma_decode_encode(g: GalleryView, omit: bool)
    requires
        valid_gallery(g),
    ensures
        decoded(gallery_wire(g, omit)) == Ok::<GalleryView, CodecErrorKind>(g),
{
    let body = core_wire(g, omit) + (names_wire(g) + (people_wire(g, omit) + tail_wire(g)));
    lemma_split_header(body);
    assert(body + Seq::<u8>::empty() =~= body);
    lemma_body(g, omit, Seq::<u8>::empty(), blank_gallery());
}

/// A record whose empty lists are left out of its bytes reads back the same
/// as one whose empty lists are written with a count of zero: both read as
/// the record, with those lists empty.
pub proof fn lemma_absent_lists_read_as_empty(g: GalleryView)
    requires
        valid_gallery(g),
    ensures
        decoded(gallery_wire(g, true)) == decoded(gallery_wire(g, false)),
        decoded(gallery_wire(g, true)) == Ok::<GalleryView, CodecErrorKind>(g),
{
    lemma_decode_encode(g, true);
    lemma_decode_encode(g, false);
}


#[verifier::spinoff_prover]
#[verifier::rlimit(40)]
fn write_core(g: &Gallery, omit: bool, out: &mut Vec<u8>)
    requires
        core_fits(g@),
    ensures
        final(out)@ == old(out)@ + core_wire(g@, omit),
{
    let ghost o0 = out@;
    g.gallery_id.write(out);
    let ghost o1 = out@;
    g.title.write(out);
    let ghost o2 = out@;
    g.date.write(out);
    let ghost o3 = out@;
    write_list(&g.files, omit, out);
    let ghost o4 = out@;
    write_list(&g.languages, omit, out);
    let ghost o5 = out@;
    write_list(&g.scene_indexes, omit, out);
    let ghost o6 = out@;
    g.type_.write(out);
    let ghost o7 = out@;
    g.id.write(out);
    let ghost o8 = out@;
    write_list(&g.related, omit, out);
    proof {
        let gv = g@;
        let x9 = list_wire::<String>(gv.related, omit);
        let x8 = String::wire(gv.id) + x9;
        let x7 = String::wire(gv.type_) + x8;
        let x6 = list_wire::<i32>(gv.scene_indexes, omit) + x7;
        let x5 = list_wire::<Language>(gv.languages, omit) + x6;
        let x4 = list_wire::<File>(gv.files, omit) + x5;
        let x3 = Timestamp::wire(gv.date) + x4;
        let x2 = String::wire(gv.title) + x3;
        lemma_concat_associative(o7, String::wire(gv.id), x9);
        lemma_concat_associative(o6, String::wire(gv.type_), x8);
        lemma_concat_associative(o5, list_wire::<i32>(gv.scene_indexes, omit), x7);
        lemma_concat_associative(o4, list_wire::<Language>(gv.languages, omit), x6);
        lemma_concat_associative(o3, list_wire::<File>(gv.files, omit), x5);
        lemma_concat_associative(o2, Timestamp::wire(gv.date), x4);
        lemma_concat_associative(o1, String::wire(gv.title), x3);
        lemma_concat_associative(o0, i32::wire(gv.gallery_id), x2);
    }
}

#[verifier::spinoff_prover]
#[verifier::rlimit(40)]
fn write_names(g: &Gallery, out: &mut Vec<u8>)
    requires
        names_fits(g@),
    ensures
        final(out)@ == old(out)@ + names_wire(g@),
{
    let ghost o0 = out@;
    write_opt_text(&g.japanese_title, out);
    let ghost o1 = out@;
    write_opt_text(&g.language, out);
    let ghost o2 = out@;
    write_opt_text(&g.language_localname, out);
    let ghost o3 = out@;
    write_opt_text(&g.language_url, out);
    let ghost o4 = out@;
    write_opt_text(&g.video, out);
    let ghost o5 = out@;
    write_opt_text(&g.videofilename, out);
    proof {
        let gv = g@;
        let x6 = opt_text_wire(gv.videofilename);
        let x5 = opt_text_wire(gv.video) + x6;
        let x4 = opt_text_wire(gv.language_url) + x5;
        let x3 = opt_text_wire(gv.language_localname) + x4;
        let x2 = opt_text_wire(gv.language) + x3;
        lemma_concat_associative(o4, opt_text_wire(gv.video), x6);
        lemma_concat_associative(o3, opt_text_wire(gv.language_url), x5);
        lemma_concat_associative(o2, opt_text_wire(gv.language_localname), x4);
        lemma_concat_associative(o1, opt_text_wire(gv.language), x3);
        lemma_concat_associative(o0, opt_text_wire(gv.japanese_title), x2);
    }
}

#[verifier::spinoff_prover]
#[verifier::rlimit(40)]
fn write_people(g: &Gallery, omit: bool, out: &mut Vec<u8>)
    requires
        people_fits(g@),
    ensures
        final(out)@ == old(out)@ + people_wire(g@, omit),
{
    let ghost o0 = out@;
    write_list(&g.artists, omit, out);
    let ghost o1 = out@;
    write_list(&g.groups, omit, out);
    let ghost o2 = out@;
    write_list(&g.characters, omit, out);
    let ghost o3 = out@;
    write_list(&g.parodies, omit, out);
    let ghost o4 = out@;
    write_list(&g.tags, omit, out);
    proof {
        let gv = g@;
        let x5 = list_wire::<Tag>(gv.tags, omit);
        let x4 = list_wire::<Parody>(gv.parodies, omit) + x5;
        let x3 = list_wire::<Character>(gv.characters, omit) + x4;
        let x2 = list_wire::<Group>(gv.groups, omit) + x3;
        lemma_concat_associative(o3, list_wire::<Parody>(gv.parodies, omit), x5);
        lemma_concat_associative(o2, list_wire::<Character>(gv.characters, omit), x4);
        lemma_concat_associative(o1, list_wire::<Group>(gv.groups, omit), x3);
        lemma_concat_associative(o0, list_wire::<Artist>(gv.artists, omit), x2);
    }
}

fn write_tail(g: &Gallery, out: &mut Vec<u8>)
    requires
        tail_fits(g@),
    ensures
        final(out)@ == old(out)@ + tail_wire(g@),
{
    let ghost o0 = out@;
    write_opt_text(&g.gallery_url, out);
    let ghost o1 = out@;
    g.date_published.write(out);
    let ghost o2 = out@;
    g.blocked.write(out);
    proof {
        let gv = g@;
        let x3 = bool::wire(gv.blocked);
        let x2 = Option::<CalendarDate>::wire(gv.date_published) + x3;
        lemma_concat_associative(o1, Option::<CalendarDate>::wire(gv.date_published), x3);
        lemma_concat_associative(o0, opt_text_wire(gv.gallery_url), x2);
    }
}

fn gallery_fits_exec(g: &Gallery) -> (r: bool)
    ensures
        r == gallery_fits(g@),
{
    g.title.fits_exec() && g.date.fits_exec() && list_fits_exec(&g.files) && list_fits_exec(
        &g.languages,
    ) && list_fits_exec(&g.scene_indexes) && g.type_.fits_exec() && g.id.fits_exec()
        && list_fits_exec(&g.related) && opt_text_fits_exec(&g.japanese_title)
        && opt_text_fits_exec(&g.language) && opt_text_fits_exec(&g.language_localname)
        && opt_text_fits_exec(&g.language_url) && opt_text_fits_exec(&g.video)
        && opt_text_fits_exec(&g.videofilename) && list_fits_exec(&g.artists) && list_fits_exec(
        &g.groups,
    ) && list_fits_exec(&g.characters) && list_fits_exec(&g.parodies) && list_fits_exec(&g.tags)
        && opt_text_fits_exec(&g.gallery_url) && g.date_published.fits_exec()
}

/// Writes a record in the binary format; where `omit_empty_lists` holds,
/// each empty list is left out. Fails, naming the record's key, when a text
/// or list is too long or a date is malformed.
#[verifier::spinoff_prover]
#[verifier::rlimit(40)]
pub fn encode_gallery(g: &Gallery, omit_empty_lists: bool) -> (r: Result<Vec<u8>, CodecError>)
    ensures
        match r {
            Ok(b) => encode_failure(g@) is None && b@ == gallery_wire(g@, omit_empty_lists),
            Err(e) => encode_failure(g@) == Some(e.kind) && e.gallery_id == Some(g.gallery_id),
        },
{
    if !g.date.is_valid() {
        return Err(
            CodecError { gallery_id: Some(g.gallery_id), kind: CodecErrorKind::InvalidTimestamp },
        );
    }
    match &g.date_published {
        Some(d) => {
            if !d.is_valid() {
                return Err(
                    CodecError { gallery_id: Some(g.gallery_id), kind: CodecErrorKind::InvalidDate },
                );
            }
        },
        None => {},
    }
    if !gallery_fits_exec(g) {
        return Err(CodecError { gallery_id: Some(g.gallery_id), kind: CodecErrorKind::TooLarge });
    }
    let mut out: Vec<u8> = Vec::new();
    out.push(0x47);
    out.push(0x41);
    out.push(0x4c);
    out.push(1);
    let ghost h = out@;
    assert(h =~= header());
    write_core(g, omit_empty_lists, &mut out);
    write_names(g, &mut out);
    write_people(g, omit_empty_lists, &mut out);
    write_tail(g, &mut out);
    proof {
        let gv = g@;
        let cw = core_wire(gv, omit_empty_lists);
        let nw = names_wire(gv);
        let pw = people_wire(gv, omit_empty_lists);
        let tw = tail_wire(gv);
        lemma_concat_associative(h, cw, nw + (pw + tw));
        lemma_concat_associative(h + cw, nw, pw + tw);
        lemma_concat_associative(h + cw + nw, pw, tw);
    }
    Ok(out)
}

/// Writes a record in the binary format, with every list written out.
pub fn serialize_gallery(gallery_data: &Gallery) -> (r: Result<Vec<u8>, CodecError>)
    ensures
        match r {
            Ok(b) => encode_failure(gallery_data@) is None && b@ == gallery_wire(gallery_data@, false),
            Err(e) => encode_failure(gallery_data@) == Some(e.kind) && e.gallery_id == Some(
                gallery_data.gallery_id,
            ),
        },
{
    encode_gallery(gallery_data, false)
}

#[verifier::spinoff_prover]
#[verifier::rlimit(40)]
fn read_core(b: &[u8], pos: usize, g: &mut Gallery) -> (r: Option<usize>)
    requires
        pos <= b@.len(),
    ensures
        match r {
            Some(p) => pos <= p <= b@.len() && core_parse(suffix(b@, pos as int), old(g)@) == Some(
                (final(g)@, suffix(b@, p as int)),
            ),
            None => core_parse(suffix(b@, pos as int), old(g)@) is None,
        },
{
    let (gallery_id, pos1) = match i32::read(b, pos) {
        Some(x) => x,
        None => return None,
    };
    let (title, pos2) = match String::read(b, pos1) {
        Some(x) => x,
        None => return None,
    };
    let (date, pos3) = match Timestamp::read(b, pos2) {
        Some(x) => x,
        None => return None,
    };
    let (files, pos4) = match read_list::<File>(b, pos3) {
        Some(x) => x,
        None => return None,
    };
    let (languages, pos5) = match read_list::<Language>(b, pos4) {
        Some(x) => x,
        None => return None,
    };
    let (scene_indexes, pos6) = match read_list::<i32>(b, pos5) {
        Some(x) => x,
        None => return None,
    };
    let (type_, pos7) = match String::read(b, pos6) {
        Some(x) => x,
        None => return None,
    };
    let (id, pos8) = match String::read(b, pos7) {
        Some(x) => x,
        None => return None,
    };
    let (related, pos9) = match read_list::<String>(b, pos8) {
        Some(x) => x,
        None => return None,
    };
    g.gallery_id = gallery_id;
    g.title = title;
    g.date = date;
    g.files = files;
    g.languages = languages;
    g.scene_indexes = scene_indexes;
    g.type_ = type_;
    g.id = id;
    g.related = related;
    Some(pos9)
}

#[verifier::spinoff_prover]
#[verifier::rlimit(40)]
fn read_names(b: &[u8], pos: usize, g: &mut Gallery) -> (r: Option<usize>)
    requires
        pos <= b@.len(),
    ensures
        match r {
            Some(p) => pos <= p <= b@.len() && names_parse(suffix(b@, pos as int), old(g)@) == Some(
                (final(g)@, suffix(b@, p as int)),
            ),
            None => names_parse(suffix(b@, pos as int), old(g)@) is None,
        },
{
    let (japanese_title, pos1) = match read_opt_text(b, pos) {
        Some(x) => x,
        None => return None,
    };
    let (language, pos2) = match read_opt_text(b, pos1) {
        Some(x) => x,
        None => return None,
    };
    let (language_localname, pos3) = match read_opt_text(b, pos2) {
        Some(x) => x,
        None => return None,
    };
    let (language_url, pos4) = match read_opt_text(b, pos3) {
        Some(x) => x,
        None => return None,
    };
    let (video, pos5) = match read_opt_text(b, pos4) {
        Some(x) => x,
        None => return None,
    };
    let (videofilename, pos6) = match read_opt_text(b, pos5) {
        Some(x) => x,
        None => return None,
    };
    g.japanese_title = japanese_title;
    g.language = language;
    g.language_localname = language_localname;
    g.language_url = language_url;
    g.video = video;
    g.videofilename = videofilename;
    Some(pos6)
}

#[verifier::spinoff_prover]
#[verifier::rlimit(40)]
fn read_people(b: &[u8], pos: usize, g: &mut Gallery) -> (r: Option<usize>)
    requires
        pos <= b@.len(),
    ensures
        match r {
            Some(p) => pos <= p <= b@.len() && people_parse(suffix(b@, pos as int), old(g)@) == Some(
                (final(g)@, suffix(b@, p as int)),
            ),
            None => people_parse(suffix(b@, pos as int), old(g)@) is None,
        },
{
    let (artists, pos1) = match read_list::<Artist>(b, pos) {
        Some(x) => x,
        None => return None,
    };
    let (groups, pos2) = match read_list::<Group>(b, pos1) {
        Some(x) => x,
        None => return None,
    };
    let (characters, pos3) = match read_list::<Character>(b, pos2) {
        Some(x) => x,
        None => return None,
    };
    let (parodies, pos4) = match read_list::<Parody>(b, pos3) {
        Some(x) => x,
        None => return None,
    };
    let (tags, pos5) = match read_list::<Tag>(b, pos4) {
        Some(x) => x,
        None => return None,
    };
    g.artists = artists;
    g.groups = groups;
    g.characters = characters;
    g.parodies = parodies;
    g.tags = tags;
    Some(pos5)
}

#[verifier::spinoff_prover]
#[verifier::rlimit(40)]
fn read_tail(b: &[u8], pos: usize, g: &mut Gallery) -> (r: Option<usize>)
    requires
        pos <= b@.len(),
    ensures
        match r {
            Some(p) => pos <= p <= b@.len() && tail_parse(suffix(b@, pos as int), old(g)@) == Some(
                (final(g)@, suffix(b@, p as int)),
            ),
            None => tail_parse(suffix(b@, pos as int), old(g)@) is None,
        },
{
    let (gallery_url, pos1) = match read_opt_text(b, pos) {
        Some(x) => x,
        None => return None,
    };
    let (date_published, pos2) = match Option::<CalendarDate>::read(b, pos1) {
        Some(x) => x,
        None => return None,
    };
    let (blocked, pos3) = match bool::read(b, pos2) {
        Some(x) => x,
        None => return None,
    };
    g.gallery_url = gallery_url;
    g.date_published = date_published;
    g.blocked = blocked;
    Some(pos3)
}

fn blank() -> (g: Gallery)
    ensures
        g@ == blank_gallery(),
{
    let g = Gallery {
        gallery_id: 0,
        title: String::new(),
        date: Timestamp {
            date: CalendarDate { year: 0, month: 1, day: 1 },
            hour: 0,
            minute: 0,
            second: 0,
            nanosecond: 0,
            offset_minutes: 0,
        },
        files: Vec::new(),
        languages: Vec::new(),
        scene_indexes: Vec::new(),
        type_: String::new(),
        id: String::new(),
        related: Vec::new(),
        japanese_title: None,
        language: None,
        language_localname: None,
        language_url: None,
        video: None,
        videofilename: None,
        artists: Vec::new(),
        groups: Vec::new(),
        characters: Vec::new(),
        parodies: Vec::new(),
        tags: Vec::new(),
        gallery_url: None,
        date_published: None,
        blocked: false,
    };
    assert(views(g.files@) =~= Seq::<FileView>::empty());
    assert(views(g.languages@) =~= Seq::<LanguageView>::empty());
    assert(views(g.scene_indexes@) =~= Seq::<i32>::empty());
    assert(views(g.related@) =~= Seq::<Seq<char>>::empty());
    assert(views(g.artists@) =~= Seq::<NamedLinkView>::empty());
    assert(views(g.groups@) =~= Seq::<NamedLinkView>::empty());
    assert(views(g.characters@) =~= Seq::<NamedLinkView>::empty());
    assert(views(g.parodies@) =~= Seq::<NamedLinkView>::empty());
    assert(views(g.tags@) =~= Seq::<TagView>::empty());
    g
}

/// Reads a record from its binary form. Fails on bytes that do not hold a
/// record of this format; a version 1 record must end the bytes, while a
/// later version may carry fields appended after the ones read here. The
/// error names the record's key where the bytes hold one.
#[verifier::spinoff_prover]
#[verifier::rlimit(40)]
pub fn deserialize_gallery(data: &[u8]) -> (r: Result<Gallery, CodecError>)
    ensures
        match r {
            Ok(g) => decoded(data@) == Ok::<GalleryView, CodecErrorKind>(g@),
            Err(e) => decoded(data@) == Err::<GalleryView, CodecErrorKind>(e.kind) && e.gallery_id
                == key_in(data@),
        },
{
    let header_ok = data.len() >= 4 && data[0] == 0x47 && data[1] == 0x41 && data[2] == 0x4c
        && data[3] >= 1;
    if !header_ok {
        return Err(CodecError { gallery_id: None, kind: CodecErrorKind::UnsupportedFormat });
    }
    let key: Option<i32> = if data.len() >= 8 {
        Some(read_u32(data, 4) as i32)
    } else {
        None
    };
    let malformed = CodecError { gallery_id: key, kind: CodecErrorKind::Malformed };
    let mut g = blank();
    let pos1 = match read_core(data, 4, &mut g) {
        Some(p) => p,
        None => return Err(malformed),
    };
    let pos2 = match read_names(data, pos1, &mut g) {
        Some(p) => p,
        None => return Err(malformed),
    };
    let pos3 = match read_people(data, pos2, &mut g) {
        Some(p) => p,
        None => return Err(malformed),
    };
    let pos4 = match read_tail(data, pos3, &mut g) {
        Some(p) => p,
        None => return Err(malformed),
    };
    assert(body_parse(suffix(data@, 4), blank_gallery()) == Some((g@, suffix(data@, pos4 as int))));
    if pos4 != data.len() && data[3] == 1 {
        return Err(malformed);
    }
    Ok(g)
}

} // verus!
