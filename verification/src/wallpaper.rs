//! The uploaded home-page wallpaper: which images are taken, and how they are
//! served.

use crate::clock::now_secs;
use crate::number::{decimal, digits};
use crate::store::{Store, Wallpaper, DEFAULT_ACCENT, LEGACY_ACCENT};
use crate::text::{
    ascii_lower, before, begins, chars_of, contains, find_first, first_of, has_part, has_prefix,
    lower_text, same_ignoring_case, starts_with, string_of, text_eq, trim, trim_char, trim_leading,
    trimmed,
};
use base64::Engine;
use vstd::prelude::*;
use vstd::slice::slice_subrange;

verus! {

/// Raster image types that are accepted for an uploaded wallpaper. SVG is
/// deliberately left out: it can carry scripts, and the wallpaper scheme counts
/// as a local origin.
pub const WALLPAPER_MIMES: [&'static str; 5] = [
    "image/png",
    "image/jpeg",
    "image/webp",
    "image/gif",
    "image/avif",
];

pub open spec fn is_wallpaper_mime(m: Seq<char>) -> bool {
    exists|i: int| 0 <= i < 5 && (#[trigger] WALLPAPER_MIMES@[i])@ == m
}

/// What the standard base64 alphabet with padding makes of a text: the bytes,
/// or nothing where the text is not in that form.
pub uninterp spec fn base64_decoded(s: Seq<char>) -> Option<Seq<u8>>;

pub open spec fn opt_bytes(b: Option<Vec<u8>>) -> Option<Seq<u8>> {
    match b {
        Some(v) => Some(v@),
        None => None,
    }
}

/// `Engine::decode` of the `base64` crate on its `STANDARD` engine. The
/// contract says that the bytes depend on the text alone; the code itself is
/// not spelled out.
#[verifier::external_body]
fn base64_decode(s: &str) -> (r: Option<Vec<u8>>)
    ensures
        opt_bytes(r) == base64_decoded(s@),
{
    base64::engine::general_purpose::STANDARD.decode(s).ok()
}

/// Is this one of the accepted image types?
pub fn wallpaper_mime(m: &str) -> (r: bool)
    ensures
        r == is_wallpaper_mime(m@),
{
    let mut i: usize = 0;
    while i < 5
        invariant
            i <= 5,
            forall|j: int| 0 <= j < i ==> (#[trigger] WALLPAPER_MIMES@[j])@ != m@,
        decreases 5 - i,
    {
        if text_eq(WALLPAPER_MIMES[i], m) {
            return true;
        }
        i += 1;
    }
    false
}

// ---- uploads ------------------------------------------------------------

/// The type and the payload that a `data:<mime>;base64,<payload>` URL carries,
/// where it is an accepted image.
pub open spec fn data_image(url: Seq<char>) -> Option<(Seq<char>, Seq<char>)> {
    if !has_prefix(url, "data:"@) {
        None
    } else {
        let rest = url.skip("data:"@.len() as int);
        let k = first_of(rest, seq![',']) as int;
        if k >= rest.len() {
            None
        } else {
            let header = rest.take(k);
            let mime = ascii_lower(trimmed(before(header, seq![';'])));
            if has_part(header, ";base64"@) && is_wallpaper_mime(mime) {
                Some((mime, trimmed(rest.skip(k + 1))))
            } else {
                None
            }
        }
    }
}

fn one(c: char) -> (r: Vec<char>)
    ensures
        r@ == seq![c],
{
    let mut v: Vec<char> = Vec::new();
    v.push(c);
    v
}

/// Take a data URL apart: the image type and the encoded bytes.
pub fn split_data_url(data_url: &str) -> (r: Option<(String, String)>)
    ensures
        match r {
            Some((mime, payload)) => data_image(data_url@) == Some((mime@, payload@)),
            None => data_image(data_url@) is None,
        },
{
    let url = chars_of(data_url);
    let scheme = chars_of("data:");
    if !starts_with(url.as_slice(), scheme.as_slice()) {
        return None;
    }
    let rest = slice_subrange(url.as_slice(), scheme.len(), url.len());
    let comma = one(',');
    let n = rest.len();
    proof {
        crate::text::lemma_first_of(rest@, seq![',']);
    }
    let k = find_first(rest, comma.as_slice());
    if k >= n {
        return None;
    }
    let header = slice_subrange(rest, 0, k);
    let payload = slice_subrange(rest, k + 1, n);
    let marker = chars_of(";base64");
    if !contains(header, marker.as_slice()) {
        return None;
    }
    let semicolon = one(';');
    proof {
        crate::text::lemma_first_of(header@, seq![';']);
    }
    let end = find_first(header, semicolon.as_slice());
    let mime = string_of(lower_text(trim(slice_subrange(header, 0, end))).as_slice());
    if !wallpaper_mime(mime.as_str()) {
        return None;
    }
    Some((mime, string_of(trim(payload))))
}

/// The uploaded image of a data URL: its type and its bytes, where it is an
/// accepted one and the payload decodes.
pub fn decode_wallpaper(data_url: &str) -> (r: Option<(String, Vec<u8>)>)
    ensures
        match (r, data_image(data_url@)) {
            (Some((mime, bytes)), Some((m, payload))) => mime@ == m && base64_decoded(payload)
                == Some(bytes@),
            (Some(_), None) => false,
            (None, Some((_, payload))) => base64_decoded(payload) is None,
            (None, None) => true,
        },
{
    match split_data_url(data_url) {
        Some((mime, payload)) => image_of(mime, base64_decode(payload.as_str())),
        None => None,
    }
}

/// The image, where its payload was decoded.
pub fn image_of(mime: String, decoded: Option<Vec<u8>>) -> (r: Option<(String, Vec<u8>)>)
    ensures
        match (r, decoded) {
            (Some((m, b)), Some(bytes)) => m == mime && b == bytes,
            (None, None) => true,
            _ => false,
        },
{
    match decoded {
        Some(bytes) => Some((mime, bytes)),
        None => None,
    }
}

/// The tag of the image written at `secs`.
pub fn version_at(secs: u64) -> (r: String)
    ensures
        r@ == digits(secs as nat),
{
    decimal(secs)
}

/// A fresh version tag for the image on disk (it keeps caches from serving an
/// older one): the decimal digits of the time.
pub fn version_tag() -> (r: String)
    ensures
        exists|secs: u64| r@ == #[trigger] digits(secs as nat),
{
    let secs = now_secs();
    version_at(secs)
}

// ---- serving ------------------------------------------------------------

/// The type under which the image on disk is served: what was stored with it,
/// if that is an accepted type, so that an edited file cannot smuggle in
/// another one.
pub open spec fn served_as(stored: Option<Seq<char>>) -> Seq<char> {
    match stored {
        Some(m) if is_wallpaper_mime(m) => m,
        _ => "image/png"@,
    }
}

/// The uploaded wallpaper as (type, bytes), given what was read from disk.
pub fn load_wallpaper_image(bytes: Option<Vec<u8>>, mime: Option<String>) -> (r: Option<
    (String, Vec<u8>),
>)
    ensures
        match (r, bytes) {
            (Some((m, b)), Some(read)) => b == read && m@ == served_as(
                crate::web::opt_text(mime),
            ),
            (None, None) => true,
            _ => false,
        },
{
    let bytes = match bytes {
        Some(b) => b,
        None => {
            return None;
        },
    };
    let mime = match mime {
        Some(m) => if wallpaper_mime(m.as_str()) {
            m
        } else {
            "image/png".to_owned()
        },
        None => "image/png".to_owned(),
    };
    Some((mime, bytes))
}

/// An answer of the wallpaper scheme.
pub struct Answer {
    pub status: u16,
    pub headers: Vec<(&'static str, String)>,
    pub body: Vec<u8>,
}

/// Only this one path is served.
pub open spec fn is_wallpaper_path(path: Seq<char>) -> bool {
    trim_char(path, '/') == "current"@
}

/// The headers of an answer, as texts.
pub open spec fn header_texts(h: Seq<(&'static str, String)>) -> Seq<(Seq<char>, Seq<char>)> {
    h.map_values(|p: (&'static str, String)| (p.0@, p.1@))
}

pub open spec fn wallpaper_headers(mime: Seq<char>) -> Seq<(Seq<char>, Seq<char>)> {
    seq![
        ("Content-Type"@, mime),
        ("X-Content-Type-Options"@, "nosniff"@),
        ("Content-Security-Policy"@, "sandbox; default-src 'none'"@),
        ("Cache-Control"@, "max-age=31536000, immutable"@),
    ]
}

/// Is this the path at which the wallpaper is served?
pub fn serves_wallpaper(path: &str) -> (r: bool)
    ensures
        r == is_wallpaper_path(path@),
{
    let chars = chars_of(path);
    let name = trim_leading(chars.as_slice(), '/');
    text_eq(string_of(name).as_str(), "current")
}

/// `r` answers a request for `path`, given the image on disk.
pub open spec fn answers(path: Seq<char>, image: Option<(String, Vec<u8>)>, r: Answer) -> bool {
    match image {
        Some((mime, bytes)) if is_wallpaper_path(path) => r.status == 200 && header_texts(
            r.headers@,
        ) == wallpaper_headers(mime@) && r.body == bytes,
        _ => r.status == 404 && r.headers@.len() == 0 && r.body@.len() == 0,
    }
}

/// Answer a request for `path`, given the image on disk: the image, sandboxed,
/// at its one path, and "not found" anywhere else or where there is no image.
pub fn wallpaper_answer(path: &str, image: Option<(String, Vec<u8>)>) -> (r: Answer)
    ensures
        answers(path@, image, r),
{
    match image {
        Some((mime, bytes)) if serves_wallpaper(path) => {
            let mut headers: Vec<(&'static str, String)> = Vec::new();
            headers.push(("Content-Type", mime));
            headers.push(("X-Content-Type-Options", "nosniff".to_owned()));
            headers.push(("Content-Security-Policy", "sandbox; default-src 'none'".to_owned()));
            headers.push(("Cache-Control", "max-age=31536000, immutable".to_owned()));
            assert(header_texts(headers@) =~= wallpaper_headers(mime@));
            Answer { status: 200, headers, body: bytes }
        },
        _ => Answer { status: 404, headers: Vec::new(), body: Vec::new() },
    }
}

// ---- older profiles -----------------------------------------------------

/// Does the wallpaper still hold its image as a data URL?
pub open spec fn is_embedded(w: Wallpaper) -> bool {
    w.kind@ == "image"@ && has_prefix(w.value@, "data:"@)
}

/// A wallpaper that is an image on disk.
pub open spec fn is_stored(w: Wallpaper, version: Seq<char>) -> bool {
    w.kind@ == "image"@ && w.value@ == version
}

pub open spec fn is_preset(w: Wallpaper) -> bool {
    w.kind@ == "preset"@ && w.value@ == "aurora"@
}

/// The default accent of older profiles, in any case.
pub open spec fn is_legacy_accent(accent: Seq<char>) -> bool {
    ascii_lower(accent) == ascii_lower(LEGACY_ACCENT@)
}

/// `after` is the store of an older profile brought up to date, where an embedded
/// image was written to disk under `version`; `r` says whether anything changed.
pub open spec fn migrated(before: Store, after: Store, version: Option<Seq<char>>, r: bool) -> bool {
    &&& r == (is_legacy_accent(before.settings.accent@) || is_embedded(before.settings.wallpaper))
    &&& if is_legacy_accent(before.settings.accent@) {
        after.settings.accent@ == DEFAULT_ACCENT@
    } else {
        after.settings.accent == before.settings.accent
    }
    &&& if is_embedded(before.settings.wallpaper) {
        match version {
            Some(v) => is_stored(after.settings.wallpaper, v),
            None => is_preset(after.settings.wallpaper),
        }
    } else {
        after.settings.wallpaper == before.settings.wallpaper
    }
    &&& after.settings == (crate::store::Settings {
        accent: after.settings.accent,
        wallpaper: after.settings.wallpaper,
        ..before.settings
    })
    &&& after == (Store { settings: after.settings, ..before })
}

impl Store {
    /// Move the old default accent to the new one; a colour that the user
    /// picked is left alone. Returns whether it was moved.
    pub fn migrate_accent(&mut self) -> (r: bool)
        ensures
            r == is_legacy_accent(old(self).settings.accent@),
            !r ==> *final(self) == *old(self),
            r ==> final(self).settings.accent@ == DEFAULT_ACCENT@,
            final(self).settings == (crate::store::Settings {
                accent: final(self).settings.accent,
                ..old(self).settings
            }),
            *final(self) == (Store { settings: final(self).settings, ..*old(self) }),
    {
        let accent = chars_of(self.settings.accent.as_str());
        let legacy = chars_of(LEGACY_ACCENT);
        if same_ignoring_case(accent.as_slice(), legacy.as_slice()) {
            self.settings.accent = DEFAULT_ACCENT.to_owned();
            true
        } else {
            false
        }
    }

    /// The data URL of an image that an older profile kept in its settings.
    pub fn embedded_wallpaper(&self) -> (r: Option<String>)
        ensures
            match r {
                Some(url) => is_embedded(self.settings.wallpaper) && url
                    == self.settings.wallpaper.value,
                None => !is_embedded(self.settings.wallpaper),
            },
    {
        let w = &self.settings.wallpaper;
        if text_eq(w.kind.as_str(), "image") && begins(w.value.as_str(), "data:") {
            Some(w.value.clone())
        } else {
            None
        }
    }

    /// Replace it by the version tag under which the image was written to disk,
    /// or by the default where it could not be written.
    pub fn replace_embedded(&mut self, version: Option<String>)
        ensures
            match version {
                Some(v) => is_stored(final(self).settings.wallpaper, v@),
                None => is_preset(final(self).settings.wallpaper),
            },
            final(self).settings == (crate::store::Settings {
                wallpaper: final(self).settings.wallpaper,
                ..old(self).settings
            }),
            *final(self) == (Store { settings: final(self).settings, ..*old(self) }),
    {
        self.settings.wallpaper = match version {
            Some(v) => Wallpaper { kind: "image".to_owned(), value: v },
            None => Wallpaper::default(),
        };
    }

    /// Bring the settings of an older profile up to date: the old default accent
    /// becomes the new one, and an embedded image gives way to `version`, the tag
    /// under which it was written to disk. Returns whether anything changed.
    pub fn migrate(&mut self, version: Option<String>) -> (r: bool)
        ensures
            migrated(*old(self), *final(self), crate::web::opt_text(version), r),
    {
        let accent = self.migrate_accent();
        match self.embedded_wallpaper() {
            Some(_) => {
                self.replace_embedded(version);
                true
            },
            None => accent,
        }
    }
}

// ---- laws ---------------------------------------------------------------

/// No accepted type is scalable graphics, which can carry scripts.
pub proof fn law_no_scriptable_type(m: Seq<char>)
    requires
        is_wallpaper_mime(m),
    ensures
        m != "image/svg+xml"@,
{
    reveal_strlit("image/svg+xml");
    reveal_strlit("image/png");
    reveal_strlit("image/jpeg");
    reveal_strlit("image/webp");
    reveal_strlit("image/gif");
    reveal_strlit("image/avif");
    assert("image/svg+xml"@.len() == 13);
    assert("image/png"@.len() == 9);
    assert("image/jpeg"@.len() == 10);
    assert("image/webp"@.len() == 10);
    assert("image/gif"@.len() == 9);
    assert("image/avif"@.len() == 10);
    let i = choose|i: int| 0 <= i < 5 && (#[trigger] WALLPAPER_MIMES@[i])@ == m;
    assert(i == 0 || i == 1 || i == 2 || i == 3 || i == 4);
}

/// Whatever stands on disk, the wallpaper is served under an accepted type.
pub proof fn law_served_type_is_accepted(stored: Option<Seq<char>>)
    ensures
        is_wallpaper_mime(served_as(stored)),
{
    assert(WALLPAPER_MIMES@[0]@ == "image/png"@);
}

/// An upload that is taken is of an accepted type.
pub proof fn law_taken_type_is_accepted(url: Seq<char>)
    ensures
        match data_image(url) {
            Some((mime, _)) => is_wallpaper_mime(mime),
            None => true,
        },
{
}

/// Five image types are accepted.
pub proof fn law_five_image_types_are_accepted(m: Seq<char>)
    ensures
        is_wallpaper_mime(m) <==> m == "image/png"@ || m == "image/jpeg"@ || m == "image/webp"@ || m
            == "image/gif"@ || m == "image/avif"@,
{
    assert(WALLPAPER_MIMES@[0]@ == "image/png"@);
    assert(WALLPAPER_MIMES@[1]@ == "image/jpeg"@);
    assert(WALLPAPER_MIMES@[2]@ == "image/webp"@);
    assert(WALLPAPER_MIMES@[3]@ == "image/gif"@);
    assert(WALLPAPER_MIMES@[4]@ == "image/avif"@);
    if is_wallpaper_mime(m) {
        let i = choose|i: int| 0 <= i < 5 && (#[trigger] WALLPAPER_MIMES@[i])@ == m;
        assert(i == 0 || i == 1 || i == 2 || i == 3 || i == 4);
    }
}

proof fn lemma_first_at(s: Seq<char>, c: char, k: int)
    requires
        0 <= k < s.len(),
        s[k] == c,
        forall|i: int| 0 <= i < k ==> s[i] != c,
    ensures
        first_of(s, seq![c]) == k,
{
    crate::text::lemma_first_of(s, seq![c]);
    let n = first_of(s, seq![c]) as int;
    assert(seq![c].contains(s[k])) by {
        assert(seq![c][0] == s[k]);
    }
    if n < s.len() {
        assert(seq![c].contains(s[n]));
        let j = choose|j: int| 0 <= j < 1 && seq![c][j] == s[n];
        assert(s[n] == c);
    }
}

/// A data URL is taken exactly where its type, with case and white space aside,
/// is one of those accepted; it is then taken apart into that type and the
/// encoded bytes, without white space around them.
pub proof fn law_uploads_are_taken_apart(mime: Seq<char>, payload: Seq<char>)
    requires
        !mime.contains(','),
        !mime.contains(';'),
    ensures
        is_wallpaper_mime(ascii_lower(trimmed(mime))) ==> data_image(
            "data:"@ + mime + ";base64,"@ + payload,
        ) == Some((ascii_lower(trimmed(mime)), trimmed(payload))),
        !is_wallpaper_mime(ascii_lower(trimmed(mime))) ==> data_image(
            "data:"@ + mime + ";base64,"@ + payload,
        ) is None,
{
    reveal_strlit("data:");
    reveal_strlit(";base64");
    reveal_strlit(";base64,");
    let mark = ";base64"@;
    assert(";base64,"@ =~= mark + seq![',']);
    let url = "data:"@ + mime + ";base64,"@ + payload;
    let rest = mime + ";base64,"@ + payload;
    assert(url.take("data:"@.len() as int) =~= "data:"@);
    assert(url.skip("data:"@.len() as int) =~= rest);
    let n = mime.len() as int;
    let k = n + 7;
    assert(rest[k] == ',');
    assert forall|i: int| 0 <= i < k implies rest[i] != ',' by {
        if i < n {
            assert(rest[i] == mime[i]);
        } else {
            assert(rest[i] == mark[i - n]);
        }
    }
    lemma_first_at(rest, ',', k);
    let header = rest.take(k);
    assert(header =~= mime + mark);
    assert(rest.skip(k + 1) =~= payload);
    assert(header.subrange(n, n + 7) =~= mark);
    assert(crate::text::occurs_at(header, mark, n));
    assert(has_part(header, mark));
    assert(header[n] == ';');
    assert forall|i: int| 0 <= i < n implies header[i] != ';' by {
        assert(header[i] == mime[i]);
    }
    lemma_first_at(header, ';', n);
    assert(before(header, seq![';']) =~= mime);
}

/// What is no data URL, or has no comma, is not taken.
pub proof fn law_other_urls_are_refused(url: Seq<char>)
    requires
        url.len() < 5 || url.take(5) != seq!['d', 'a', 't', 'a', ':'] || !url.contains(','),
    ensures
        data_image(url) is None,
{
    reveal_strlit("data:");
    assert("data:"@ =~= seq!['d', 'a', 't', 'a', ':']);
    if has_prefix(url, "data:"@) {
        let rest = url.skip(5);
        crate::text::lemma_first_of(rest, seq![',']);
        let n = first_of(rest, seq![',']) as int;
        if n < rest.len() {
            let j = choose|j: int| 0 <= j < 1 && seq![','][j] == rest[n];
            assert(url[n + 5] == ',');
        }
    }
}

/// The image is served under the type stored with it, where that is accepted,
/// and else as a PNG.
pub proof fn law_stored_types_are_served(m: Seq<char>)
    ensures
        is_wallpaper_mime(m) ==> served_as(Some(m)) == m,
        !is_wallpaper_mime(m) ==> served_as(Some(m)) == "image/png"@,
        served_as(None) == "image/png"@,
{
}

/// One path is served, with any number of slashes before it.
pub proof fn law_one_path_is_served(path: Seq<char>)
    ensures
        is_wallpaper_path(seq!['/'] + path) <==> is_wallpaper_path(path),
        path.len() == 0 || path[0] != '/' ==> (is_wallpaper_path(path) <==> path == "current"@),
{
    let longer = seq!['/'] + path;
    assert(longer.skip(1) =~= path);
    reveal_with_fuel(trim_char, 2);
}

/// The image is served for what its type says and nothing else: sniffing is off,
/// and it runs sandboxed. As its address changes with it, it is cached for good.
pub proof fn law_images_are_served_sandboxed(mime: Seq<char>)
    ensures
        wallpaper_headers(mime).contains(("Content-Type"@, mime)),
        wallpaper_headers(mime).contains(("X-Content-Type-Options"@, "nosniff"@)),
        wallpaper_headers(mime).contains(
            ("Content-Security-Policy"@, "sandbox; default-src 'none'"@),
        ),
        wallpaper_headers(mime).contains(("Cache-Control"@, "max-age=31536000, immutable"@)),
{
    let h = wallpaper_headers(mime);
    assert(h[0] == ("Content-Type"@, mime));
    assert(h[1] == ("X-Content-Type-Options"@, "nosniff"@));
    assert(h[2] == ("Content-Security-Policy"@, "sandbox; default-src 'none'"@));
    assert(h[3] == ("Cache-Control"@, "max-age=31536000, immutable"@));
}

/// The accent that used to be the default is known in any case, and no other is.
pub proof fn law_the_old_accent_is_known(accent: Seq<char>)
    ensures
        is_legacy_accent(accent) <==> ascii_lower(accent) == seq![
            '#',
            'a',
            '7',
            '8',
            'b',
            'f',
            'a',
        ],
{
    reveal_strlit("#a78bfa");
    assert(LEGACY_ACCENT@ =~= seq!['#', 'a', '7', '8', 'b', 'f', 'a']);
    assert(ascii_lower(LEGACY_ACCENT@) =~= LEGACY_ACCENT@);
}

/// An embedded image is one of an upload whose value is a data URL.
pub proof fn law_embedded_images_are_data_urls(w: Wallpaper)
    ensures
        is_embedded(w) <==> w.kind@ == seq!['i', 'm', 'a', 'g', 'e'] && w.value@.len() >= 5
            && w.value@.take(5) == seq!['d', 'a', 't', 'a', ':'],
{
    reveal_strlit("image");
    reveal_strlit("data:");
    assert("image"@ =~= seq!['i', 'm', 'a', 'g', 'e']);
    assert("data:"@ =~= seq!['d', 'a', 't', 'a', ':']);
}

/// The image on disk is served at its one path; any other path is not found, and
/// so is that one where there is no image.
pub proof fn law_nothing_else_is_served(path: Seq<char>, image: (String, Vec<u8>), r: Answer)
    ensures
        answers(path, Some(image), r) && r.status == 200 ==> is_wallpaper_path(path) && r.body
            == image.1 && header_texts(r.headers@).contains(("Content-Type"@, image.0@)),
        answers(path, Some(image), r) && is_wallpaper_path(path) ==> r.status == 200,
        answers(path, Some(image), r) && !is_wallpaper_path(path) ==> r.status == 404
            && r.body@.len() == 0,
        answers(path, None, r) ==> r.status == 404 && r.body@.len() == 0,
{
    law_images_are_served_sandboxed(image.0@);
}

/// An up-to-date profile stays as it is. Of an older one the old default accent
/// becomes the new one, a colour of the user's own stays, and no data URL is left
/// where the wallpaper's image was.
pub proof fn law_profiles_are_brought_up_to_date(
    before: Store,
    after: Store,
    version: Option<Seq<char>>,
    r: bool,
)
    requires
        migrated(before, after, version, r),
        version matches Some(v) ==> !has_prefix(v, "data:"@),
    ensures
        !is_embedded(after.settings.wallpaper),
        !is_legacy_accent(after.settings.accent@),
        !r ==> after.settings.accent == before.settings.accent && after.settings.wallpaper
            == before.settings.wallpaper,
        !is_legacy_accent(before.settings.accent@) ==> after.settings.accent
            == before.settings.accent,
        is_legacy_accent(before.settings.accent@) ==> after.settings.accent@ == "#d97b32"@,
        !is_embedded(before.settings.wallpaper) ==> after.settings.wallpaper
            == before.settings.wallpaper,
        is_embedded(before.settings.wallpaper) ==> (version matches Some(v)
            ==> after.settings.wallpaper.kind@ == "image"@ && after.settings.wallpaper.value@ == v),
        is_embedded(before.settings.wallpaper) && version is None
            ==> after.settings.wallpaper.kind@ == "preset"@ && after.settings.wallpaper.value@
            == "aurora"@,
        r <==> is_legacy_accent(before.settings.accent@) || is_embedded(before.settings.wallpaper),
        after.settings.search_engine == before.settings.search_engine,
        after.settings.theme == before.settings.theme,
        after.history == before.history,
        after.bookmarks == before.bookmarks,
{
    reveal_strlit("#d97b32");
    reveal_strlit("preset");
    reveal_strlit("image");
    assert("preset"@.len() == 6);
    assert("image"@.len() == 5);
    let new = "#d97b32"@;
    law_the_old_accent_is_known(new);
    assert(ascii_lower(new)[1] == 'd');
    if is_legacy_accent(new) {
        let old_accent = seq!['#', 'a', '7', '8', 'b', 'f', 'a'];
        assert(old_accent[1] == 'a');
    }
}

} // verus!
