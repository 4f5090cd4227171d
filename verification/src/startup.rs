//! Starting up: what is made of the files of the last run, and what is opened
//! first.

use crate::icons::IconMap;
use crate::number::{decimal, digits};
use crate::saver::Dirty;
use crate::store::{Bookmark, HistoryEntry, SessionTab, Settings, Store};
use crate::text::text_eq;
use vstd::hash_map::StringHashMap;
use vstd::prelude::*;

verus! {

/// What was read from the files of the last run.
pub struct Saved {
    pub settings: Settings,
    pub bookmarks: Vec<Bookmark>,
    pub history: Vec<HistoryEntry>,
    pub session: Vec<SessionTab>,
    pub session_active: usize,
    pub favicons: IconMap,
}

/// Are the files still in the old layout, one for everything? They are then
/// read from there, written in the new layout, and the old file is kept as a
/// backup.
pub fn is_old_layout(has_settings: bool, has_legacy: bool) -> (r: bool)
    ensures
        r == (!has_settings && has_legacy),
{
    !has_settings && has_legacy
}

/// The store for what was read, with its indexes built. All of the history is
/// taken to be on disk.
pub fn load(saved: Saved) -> (r: Store)
    requires
        saved.favicons.wf(),
    ensures
        r.wf(),
        r.settings == saved.settings,
        r.bookmarks == saved.bookmarks,
        r.history == saved.history,
        r.session == saved.session,
        r.session_active == saved.session_active,
        r.favicons == saved.favicons,
        r.history_saved == saved.history@.len(),
        r.history_rewrite_since is None,
{
    let mut store = Store {
        settings: saved.settings,
        bookmarks: saved.bookmarks,
        history: saved.history,
        session: saved.session,
        session_active: saved.session_active,
        favicons: saved.favicons,
        url_counts: StringHashMap::new(),
        history_saved: 0,
        history_rewrite_since: None,
    };
    store.reindex();
    store
}

/// Name of the file that holds a part of the store.
pub open spec fn file_for(kind: Dirty) -> Seq<char> {
    match kind {
        Dirty::Settings => "settings.json"@,
        Dirty::Session => "session.json"@,
        Dirty::History => "history.jsonl"@,
        Dirty::Favicons => "favicons.json"@,
    }
}

pub fn file_name_of(kind: Dirty) -> (r: &'static str)
    ensures
        r@ == file_for(kind),
{
    match kind {
        Dirty::Settings => "settings.json",
        Dirty::Session => "session.json",
        Dirty::History => "history.jsonl",
        Dirty::Favicons => "favicons.json",
    }
}

/// Extension under which a corrupt file is moved aside, so that nothing is lost
/// silently.
pub fn corrupt_extension(secs: u64) -> (r: String)
    ensures
        r@ == "corrupt-"@ + digits(secs as nat),
{
    let mut s = "corrupt-".to_owned();
    s.append(decimal(secs).as_str());
    s
}

/// Is a session of `n` tabs restored under this setting?
pub open spec fn is_restoring(startup: Seq<char>, n: nat) -> bool {
    startup == "restore"@ && n > 0
}

/// Is the last session restored (lazily: only its active tab loads)? Else the
/// home page is opened.
pub fn open_first_tabs(startup: &str, session: &Vec<SessionTab>) -> (r: bool)
    ensures
        r == is_restoring(startup@, session@.len()),
{
    text_eq(startup, "restore") && session.len() > 0
}

/// The chrome page, told the platform and whether it runs opaque.
pub fn chrome_page(os: &str, opaque: bool) -> (r: String)
    ensures
        r@ == "index.html?os="@ + os@ + (if opaque {
            "&opaque=1"@
        } else {
            Seq::empty()
        }),
{
    let mut s = "index.html?os=".to_owned();
    s.append(os);
    if opaque {
        s.append("&opaque=1");
    }
    assert(!opaque ==> s@ =~= "index.html?os="@ + os@ + Seq::<char>::empty());
    s
}

/// Each part of the store has a file of its own.
pub proof fn law_parts_have_their_own_files(a: Dirty, b: Dirty)
    ensures
        file_for(a) == file_for(b) <==> a == b,
        file_for(Dirty::Settings) == "settings.json"@,
        file_for(Dirty::Session) == "session.json"@,
        file_for(Dirty::History) == "history.jsonl"@,
        file_for(Dirty::Favicons) == "favicons.json"@,
{
    reveal_strlit("settings.json");
    reveal_strlit("session.json");
    reveal_strlit("history.jsonl");
    reveal_strlit("favicons.json");
    assert("settings.json"@[0] == 's' && "settings.json"@.len() == 13);
    assert("session.json"@[0] == 's' && "session.json"@.len() == 12);
    assert("history.jsonl"@[0] == 'h');
    assert("favicons.json"@[0] == 'f');
}

/// The last session is restored only where the user chose so and it has tabs; the
/// home page is opened in every other case.
pub proof fn law_sessions_are_restored_on_request(startup: Seq<char>, n: nat)
    ensures
        is_restoring("restore"@, n) <==> n != 0,
        startup != "restore"@ ==> !is_restoring(startup, n),
        !is_restoring("home"@, n),
{
    reveal_strlit("restore");
    reveal_strlit("home");
    assert("restore"@.len() == 7);
    assert("home"@.len() == 4);
}

} // verus!
