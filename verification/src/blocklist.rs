//! Built-in ad and tracker blocking: the packed rule set and its parts, and a
//! small hand-picked list of hosts kept as a fallback for the case that the
//! engine rejects the generated rules.

use crate::dropdown::cut;
use crate::number::{hex16, hex_digits};
use crate::text::{chars_of, lines, split_lines, strings};
use std::io::Read;
use vstd::prelude::*;
use vstd::slice::slice_subrange;
use vstd::utf8::{decode_utf8, encode_utf8, valid_utf8};

verus! {

// Rule categories that the user can toggle separately.
pub const CATEGORY_ADS: &'static str = "ads";

pub const CATEGORY_PRIVACY: &'static str = "privacy";

pub const CATEGORY_SECURITY: &'static str = "security";

pub const CATEGORY_ANNOYANCES: &'static str = "annoyances";

/// Where the rules came from (shown in Settings).
pub struct Source {
    pub category: String,
    pub name: String,
    pub url: String,
    pub license: String,
}

pub struct ChunkMeta {
    pub category: String,
    pub rules: usize,
}

pub struct CategoryCount {
    pub block: usize,
    pub hide: usize,
    pub rules: usize,
}

/// What the first line of the rule set says of the rest.
pub struct Meta {
    pub generated: String,
    pub rules: usize,
    pub network: usize,
    pub hide: usize,
    pub exceptions: usize,
    /// Rule counts per category.
    pub categories: Vec<(String, CategoryCount)>,
    pub chunks: Vec<ChunkMeta>,
    pub sources: Vec<Source>,
}

/// Third-party ad and tracking hosts (registrable domains; subdomains match).
pub const DOMAINS: [&'static str; 271] = [
    // -- ad exchanges / SSPs / DSPs --
    "doubleclick.net",
    "googlesyndication.com",
    "googleadservices.com",
    "adservice.google.com",
    "adnxs.com",
    "adsrvr.org",
    "rubiconproject.com",
    "pubmatic.com",
    "openx.net",
    "criteo.com",
    "criteo.net",
    "casalemedia.com",
    "indexww.com",
    "33across.com",
    "sharethrough.com",
    "smartadserver.com",
    "teads.tv",
    "yieldmo.com",
    "triplelift.com",
    "bidswitch.net",
    "adform.net",
    "amazon-adsystem.com",
    "media.net",
    "medianet.com",
    "gumgum.com",
    "sovrn.com",
    "lijit.com",
    "spotxchange.com",
    "spotx.tv",
    "undertone.com",
    "conversantmedia.com",
    "contextweb.com",
    "improvedigital.com",
    "adcolony.com",
    "inmobi.com",
    "unityads.unity3d.com",
    "applovin.com",
    "ironsrc.com",
    "vungle.com",
    "chartboost.com",
    "mopub.com",
    "adtelligent.com",
    "onetag-sys.com",
    "rhythmone.com",
    "emxdgt.com",
    "sonobi.com",
    "yieldlab.net",
    "adition.com",
    "advertising.com",
    "adtech.de",
    "zedo.com",
    "adroll.com",
    "adsymptotic.com",
    "serving-sys.com",
    "sizmek.com",
    "flashtalking.com",
    "innovid.com",
    "tremorhub.com",
    "springserve.com",
    "stickyadstv.com",
    "freewheel.tv",
    "fwmrm.net",
    "ads.yahoo.com",
    "analytics.yahoo.com",
    "adtechus.com",
    "bidr.io",
    "eyeota.net",
    "semasio.net",
    "adscale.de",
    "ligadx.com",
    "richaudience.com",
    "seedtag.com",
    "smilewanted.com",
    "adyoulike.com",
    "vidoomy.com",
    "adkernel.com",
    "loopme.me",
    "pubnative.net",
    "smaato.net",
    "bidtellect.com",
    "kargo.com",
    "nativo.com",
    "trafficjunky.net",
    "exoclick.com",
    "exosrv.com",
    "juicyads.com",
    "adcash.com",
    "propellerads.com",
    "propellerclick.com",
    "popads.net",
    "popcash.net",
    "hilltopads.net",
    "onclickads.net",
    "adsterra.com",
    "clickadu.com",
    "adshares.net",
    "revcontent.com",
    "mgid.com",
    "taboola.com",
    "outbrain.com",
    "zemanta.com",
    "content.ad",
    "plista.com",
    "ligatus.com",
    "adblade.com",
    // -- ad verification / viewability --
    "moatads.com",
    "doubleverify.com",
    "adsafeprotected.com",
    "iasds01.com",
    "adlightning.com",
    "confiant-integrations.net",
    // -- analytics / trackers / data brokers --
    "google-analytics.com",
    "analytics.google.com",
    "scorecardresearch.com",
    "quantserve.com",
    "quantcount.com",
    "demdex.net",
    "everesttech.net",
    "omtrdc.net",
    "krxd.net",
    "bluekai.com",
    "exelator.com",
    "agkn.com",
    "mathtag.com",
    "tapad.com",
    "rlcdn.com",
    "liadm.com",
    "id5-sync.com",
    "crwdcntrl.net",
    "lotame.com",
    "dotomi.com",
    "turn.com",
    "amplitude.com",
    "mixpanel.com",
    "segment.io",
    "segment.com",
    "chartbeat.com",
    "chartbeat.net",
    "parsely.com",
    "parse.ly",
    "nr-data.net",
    "bat.bing.com",
    "clarity.ms",
    "hotjar.com",
    "hotjar.io",
    "fullstory.com",
    "mouseflow.com",
    "crazyegg.com",
    "luckyorange.com",
    "inspectlet.com",
    "smartlook.com",
    "logrocket.com",
    "heapanalytics.com",
    "kissmetrics.com",
    "kissmetrics.io",
    "optimizely.com",
    "branch.io",
    "adjust.com",
    "appsflyer.com",
    "kochava.com",
    "singular.net",
    "tynt.com",
    "addthis.com",
    "sharethis.com",
    "po.st",
    "pixel.wp.com",
    "stats.wp.com",
    "mc.yandex.ru",
    "cxense.com",
    "permutive.com",
    "permutive.app",
    "adobedtm.com",
    "tealiumiq.com",
    "ensighten.com",
    "bounceexchange.com",
    "bouncex.net",
    "wunderkind.co",
    "sail-horizon.com",
    "sailthru.com",
    "braze.com",
    "iterable.com",
    "onesignal.com",
    "pushwoosh.com",
    "pushcrew.com",
    "sumo.com",
    "sumome.com",
    "getsitecontrol.com",
    "trustarc.com",
    "yieldify.com",
    "clicktale.net",
    "sessioncam.com",
    "quantummetric.com",
    "glassboxdigital.io",
    "contentsquare.net",
    "trackjs.com",
    "bugsnag.com",
    "connect.facebook.net",
    "pixel.facebook.com",
    "an.facebook.com",
    "ads.linkedin.com",
    "px.ads.linkedin.com",
    "snap.licdn.com",
    "analytics.twitter.com",
    "static.ads-twitter.com",
    "ads.pinterest.com",
    "ct.pinterest.com",
    "analytics.tiktok.com",
    "ads.tiktok.com",
    "business-api.tiktok.com",
    "ads.reddit.com",
    "alb.reddit.com",
    "pixel.quora.com",
    "sp.analytics.yahoo.com",
    "adx.mail.ru",
    "top-fwz1.mail.ru",
    "counter.yadro.ru",
    "hit.gemius.pl",
    "gemius.pl",
    "ivwbox.de",
    "ioam.de",
    "wcfbc.net",
    "webtrekk.net",
    "etracker.com",
    "matomo.cloud",
    "piwik.pro",
    "sitestat.com",
    "nedstat.com",
    "statcounter.com",
    "histats.com",
    "clicky.com",
    "getclicky.com",
    "gosquared.com",
    "woopra.com",
    "track.hubspot.com",
    "js.hs-analytics.net",
    "js.hs-banner.com",
    "pardot.com",
    "marketo.net",
    "mktoresp.com",
    "eloqua.com",
    "en25.com",
    "bizible.com",
    "6sc.co",
    "6sense.com",
    "demandbase.com",
    "clearbit.com",
    "leadfeeder.com",
    "albacross.com",
    "ws.zoominfo.com",
    "intentiq.com",
    "adnium.com",
    "cpmstar.com",
    "adplxmd.com",
    "ad-delivery.net",
    "adsco.re",
    "acuityplatform.com",
    "adgrx.com",
    "adhigh.net",
    "admedo.com",
    "admixer.net",
    "adotmob.com",
    "adpushup.com",
    "adriver.ru",
    "adfox.ru",
    "betweendigital.com",
    "buzzoola.com",
    "relap.io",
    "yieldbird.com",
    "yieldlove.com",
    "yieldoptimizer.com",
    "yieldone.com",
];

// ---- the fallback list --------------------------------------------------

/// A host for the content blocker's filter grammar, ready to be embedded in a
/// JSON string: each dot is escaped for the filter, and the backslash of that
/// for JSON.
pub open spec fn escaped_host(host: Seq<char>) -> Seq<char>
    decreases host.len(),
{
    if host.len() == 0 {
        Seq::empty()
    } else {
        escaped_host(host.drop_last()) + if host.last() == '.' {
            seq!['\\', '\\', '.']
        } else {
            seq![host.last()]
        }
    }
}

pub fn escape(host: &str) -> (r: String)
    ensures
        r@ == escaped_host(host@),
{
    let chars = chars_of(host);
    let mut out = String::new();
    let mut i: usize = 0;
    assert(out@ =~= escaped_host(chars@.take(0)));
    while i < chars.len()
        invariant
            i <= chars@.len(),
            out@ == escaped_host(chars@.take(i as int)),
        decreases chars@.len() - i,
    {
        let ghost before = out@;
        assert(chars@.take(i + 1).drop_last() == chars@.take(i as int));
        if chars[i] == '.' {
            out.push('\\');
            out.push('\\');
            out.push('.');
            assert(out@ =~= before + seq!['\\', '\\', '.']);
        } else {
            out.push(chars[i]);
            assert(out@ =~= before + seq![chars@[i as int]]);
        }
        i += 1;
    }
    assert(chars@.take(chars@.len() as int) == chars@);
    out
}

/// One block rule. The filter is anchored at the scheme and ends the host at a
/// slash or a colon, so that only the host and its subdomains match.
pub open spec fn rule_text(host: Seq<char>) -> Seq<char> {
    RULE_HEAD@ + escaped_host(host) + RULE_TAIL@
}

pub const RULE_HEAD: &'static str =
    "{\"trigger\":{\"url-filter\":\"^https?://([^/]+\\\\.)?";

pub const RULE_TAIL: &'static str =
    "[/:]\",\"load-type\":[\"third-party\"]},\"action\":{\"type\":\"block\"}}";

/// The rules for some hosts, separated by commas.
pub open spec fn rules_text(hosts: Seq<&'static str>) -> Seq<char>
    decreases hosts.len(),
{
    if hosts.len() == 0 {
        Seq::empty()
    } else if hosts.len() == 1 {
        rule_text(hosts[0]@)
    } else {
        rules_text(hosts.drop_last()).push(',') + rule_text(hosts.last()@)
    }
}

/// The JSON array of the rules for some hosts.
pub open spec fn rule_list(hosts: Seq<&'static str>) -> Seq<char> {
    (seq!['['] + rules_text(hosts)).push(']')
}

fn rules_json(hosts: &[&'static str]) -> (r: String)
    ensures
        r@ == rule_list(hosts@),
{
    let mut out = String::new();
    out.push('[');
    let mut i: usize = 0;
    assert(out@ =~= seq!['['] + rules_text(hosts@.take(0)));
    while i < hosts.len()
        invariant
            i <= hosts@.len(),
            out@ == seq!['['] + rules_text(hosts@.take(i as int)),
        decreases hosts@.len() - i,
    {
        let ghost before = hosts@.take(i as int);
        let ghost after = hosts@.take(i + 1);
        assert(after.drop_last() == before);
        if i > 0 {
            out.push(',');
        }
        out.append(RULE_HEAD);
        out.append(escape(hosts[i]).as_str());
        out.append(RULE_TAIL);
        assert(out@ =~= seq!['['] + rules_text(after));
        i += 1;
    }
    assert(hosts@.take(hosts@.len() as int) == hosts@);
    out.push(']');
    out
}

/// Fallback rule list JSON: one third-party block rule per host.
pub fn fallback_json() -> (r: String)
    ensures
        r@ == rule_list(DOMAINS@),
{
    let hosts = DOMAINS;
    rules_json(hosts.as_slice())
}

// ---- the packed rule set ------------------------------------------------

/// One step of FNV-1a.
pub open spec fn fnv_step(h: u64, b: u8) -> u64 {
    (h ^ (b as u64)).wrapping_mul(0x0100_0000_01b3u64)
}

/// FNV-1a: tiny and stable.
pub open spec fn fnv_of(bytes: Seq<u8>) -> u64
    decreases bytes.len(),
{
    if bytes.len() == 0 {
        0xcbf2_9ce4_8422_2325u64
    } else {
        fnv_step(fnv_of(bytes.drop_last()), bytes.last())
    }
}

pub fn fnv(bytes: &[u8]) -> (r: u64)
    ensures
        r == fnv_of(bytes@),
{
    let mut h: u64 = 0xcbf2_9ce4_8422_2325;
    let mut i: usize = 0;
    while i < bytes.len()
        invariant
            i <= bytes@.len(),
            h == fnv_of(bytes@.take(i as int)),
        decreases bytes@.len() - i,
    {
        assert(bytes@.take(i + 1).drop_last() == bytes@.take(i as int));
        h = (h ^ (bytes[i] as u64)).wrapping_mul(0x0100_0000_01b3);
        i += 1;
    }
    assert(bytes@.take(bytes@.len() as int) == bytes@);
    h
}

/// What a well-formed Brotli stream unpacks to.
pub uninterp spec fn brotli_decoded(packed: Seq<u8>) -> Option<Seq<u8>>;

/// Reading at most `most` bytes from a `brotli::Decompressor` of the `brotli`
/// crate. Of a well-formed stream, these are the first bytes of what it unpacks
/// to. Of any other stream only the bound is stated: a read that meets the fault
/// drops what it had unpacked so far, so what is kept depends on how the reads
/// were sized.
#[verifier::external_body]
fn unpack(packed: &[u8], most: u64) -> (r: Vec<u8>)
    ensures
        match brotli_decoded(packed@) {
            Some(all) => r@ == cut(all, most as int),
            None => r@.len() <= most,
        },
{
    let mut out: Vec<u8> = Vec::new();
    let _ = brotli::Decompressor::new(packed, 65536).take(most).read_to_end(&mut out);
    out
}

/// `std::str::from_utf8` of the standard library, with the text copied: the
/// text that the bytes encode, where they are valid UTF-8.
#[verifier::external_body]
fn text_of(bytes: &[u8]) -> (r: Option<String>)
    ensures
        match r {
            Some(t) => valid_utf8(bytes@) && t@ == decode_utf8(bytes@),
            None => !valid_utf8(bytes@),
        },
{
    std::str::from_utf8(bytes).ok().map(|t| t.to_string())
}

/// The text that some bytes encode; the empty text where they encode none.
pub open spec fn utf8_text(bytes: Seq<u8>) -> Seq<char> {
    if valid_utf8(bytes) {
        decode_utf8(bytes)
    } else {
        Seq::empty()
    }
}

fn text_or_empty(bytes: &[u8]) -> (r: String)
    ensures
        r@ == utf8_text(bytes@),
{
    match text_of(bytes) {
        Some(t) => t,
        None => String::new(),
    }
}

pub open spec fn not_empty(l: Seq<char>) -> bool {
    l.len() > 0
}

/// The chunks in the text of a rule set: its lines but for the first, and but
/// for empty ones.
pub open spec fn chunk_lines(text: Seq<char>) -> Seq<Seq<char>> {
    let all = lines(text);
    (if all.len() == 0 {
        all
    } else {
        all.skip(1)
    }).filter(|l: Seq<char>| not_empty(l))
}

/// The chunks in the text of a rule set.
pub fn chunks_in(text: &str) -> (r: Vec<String>)
    ensures
        strings(r@) == chunk_lines(text@),
{
    let all = split_lines(text);
    let ghost ls = strings(all@);
    let ghost rest = if ls.len() == 0 {
        ls
    } else {
        ls.skip(1)
    };
    let ghost p = |l: Seq<char>| not_empty(l);
    let n = all.len();
    let mut out: Vec<String> = Vec::new();
    let mut i: usize = 1;
    proof {
        reveal(Seq::filter);
        assert(strings(out@) =~= rest.take(0).filter(p));
    }
    while i < n
        invariant
            1 <= i,
            i <= n || (n == 0 && i == 1),
            n == all@.len(),
            ls == strings(all@),
            rest == (if ls.len() == 0 {
                ls
            } else {
                ls.skip(1)
            }),
            p == (|l: Seq<char>| not_empty(l)),
            strings(out@) == rest.take(i - 1).filter(p),
        decreases n - i,
    {
        proof {
            reveal(Seq::filter);
            assert(rest.take(i as int).drop_last() == rest.take(i - 1));
            assert(rest[i - 1] == all@[i as int]@);
        }
        if !all[i].as_str().is_empty() {
            let ghost before = out@;
            let line = all[i].clone();
            out.push(line);
            assert(strings(out@) =~= strings(before).push(line@));
        }
        i += 1;
    }
    assert(rest.take(i - 1) =~= rest);
    out
}

/// The rule chunks as JSON texts (the whole set is unpacked: only needed where
/// the engine has no compiled copy of this rule set). Of a set that is not
/// well-formed, the chunks of whatever could be unpacked.
pub fn chunks(packed: &[u8]) -> (r: Vec<String>)
    ensures
        match brotli_decoded(packed@) {
            Some(all) => all.len() <= u64::MAX ==> strings(r@) == chunk_lines(utf8_text(all)),
            None => exists|bytes: Seq<u8>| strings(r@) == #[trigger] chunk_lines(utf8_text(bytes)),
        },
{
    let bytes = unpack(packed, u64::MAX);
    let text = text_or_empty(bytes.as_slice());
    chunks_in(text.as_str())
}

/// The bytes before the first line feed.
pub open spec fn first_line(bytes: Seq<u8>) -> Seq<u8>
    decreases bytes.len(),
{
    if bytes.len() == 0 || bytes[0] == 10u8 {
        Seq::empty()
    } else {
        seq![bytes[0]] + first_line(bytes.skip(1))
    }
}

fn line_end(bytes: &[u8]) -> (r: usize)
    ensures
        r <= bytes@.len(),
        first_line(bytes@) == bytes@.take(r as int),
        r < bytes@.len() ==> bytes@[r as int] == 10u8,
        forall|j: int| 0 <= j < r ==> bytes@[j] != 10u8,
{
    let mut i: usize = 0;
    while i < bytes.len() && bytes[i] != 10u8
        invariant
            i <= bytes@.len(),
            forall|j: int| 0 <= j < i ==> bytes@[j] != 10u8,
        decreases bytes@.len() - i,
    {
        i += 1;
    }
    proof {
        lemma_first_line(bytes@, i as int);
    }
    i
}

proof fn lemma_first_line(bytes: Seq<u8>, k: int)
    requires
        0 <= k <= bytes.len(),
        forall|j: int| 0 <= j < k ==> bytes[j] != 10u8,
        k < bytes.len() ==> bytes[k] == 10u8,
    ensures
        first_line(bytes) == bytes.take(k),
    decreases k,
{
    if k == 0 {
        assert(bytes.take(0) =~= Seq::<u8>::empty());
    } else {
        let rest = bytes.skip(1);
        assert forall|j: int| 0 <= j < k - 1 implies rest[j] != 10u8 by {
            assert(rest[j] == bytes[j + 1]);
        }
        lemma_first_line(rest, k - 1);
        assert(bytes.take(k) =~= seq![bytes[0]] + rest.take(k - 1));
    }
}

/// The first line of some bytes, as a text.
pub fn line_text(bytes: &[u8]) -> (r: String)
    ensures
        r@ == utf8_text(first_line(bytes@)),
{
    let k = line_end(bytes);
    text_or_empty(slice_subrange(bytes, 0, k))
}

/// How much is unpacked at first to find the meta line.
pub const META_SPAN: u64 = 65536;

/// The meta line of a rule set. Only the beginning is unpacked, unless the line
/// is longer than that. Of a set that is not well-formed, the first line of
/// whatever could be unpacked.
pub fn meta_line(packed: &[u8]) -> (r: String)
    ensures
        match brotli_decoded(packed@) {
            Some(all) => all.len() <= u64::MAX ==> r@ == utf8_text(first_line(all)),
            None => exists|bytes: Seq<u8>| r@ == #[trigger] utf8_text(first_line(bytes)),
        },
{
    let head = unpack(packed, META_SPAN);
    let k = line_end(head.as_slice());
    if k < head.len() {
        proof {
            if let Some(all) = brotli_decoded(packed@) {
                assert forall|j: int| 0 <= j < k implies #[trigger] all[j] != 10u8 by {
                    assert(head@[j] == all[j]);
                }
                lemma_first_line(all, k as int);
                assert(all.take(k as int) == head@.take(k as int));
            }
        }
        return line_text(head.as_slice());
    }
    let whole = unpack(packed, u64::MAX);
    line_text(whole.as_slice())
}

/// What the native blocker needs to know of the rules.
pub struct RuleSet {
    /// Prefix of the identifiers of the compiled lists; it embeds a hash of the
    /// packed rules, so that an update compiles afresh while an unchanged set
    /// is loaded from the engine's cache.
    pub identifier: String,
    /// Category of each chunk, in order (also the chunk count).
    pub categories: Vec<String>,
    pub fallback_identifier: String,
}

/// The category of each chunk.
pub open spec fn chunk_categories(chunks: Seq<ChunkMeta>) -> Seq<Seq<char>> {
    chunks.map_values(|c: ChunkMeta| c.category@)
}

/// `r` stands for a packed rule set whose meta line says `meta`.
pub open spec fn stands_for(r: RuleSet, packed: Seq<u8>, meta: Meta) -> bool {
    &&& r.identifier@ == "foxlite-rules-"@ + hex_digits(fnv_of(packed) as nat, 16)
    &&& strings(r.categories@) == chunk_categories(meta.chunks@)
    &&& r.fallback_identifier@ == "foxlite-fallback-"@ + hex_digits(
        fnv_of(encode_utf8(rule_list(DOMAINS@))) as nat,
        16,
    )
}

/// Everything that the native blocker needs, for a packed rule set and what its
/// meta line says.
pub fn rule_set(packed: &[u8], meta: &Meta) -> (r: RuleSet)
    ensures
        stands_for(r, packed@, *meta),
{
    let mut identifier = "foxlite-rules-".to_owned();
    identifier.append(hex16(fnv(packed)).as_str());
    let mut fallback_identifier = "foxlite-fallback-".to_owned();
    let json = fallback_json();
    fallback_identifier.append(hex16(fnv(json.as_str().as_bytes())).as_str());
    let mut categories: Vec<String> = Vec::new();
    let mut i: usize = 0;
    let ghost all = chunk_categories(meta.chunks@);
    assert(strings(categories@) =~= all.take(0));
    while i < meta.chunks.len()
        invariant
            i <= meta.chunks@.len(),
            all == chunk_categories(meta.chunks@),
            strings(categories@) == all.take(i as int),
        decreases meta.chunks@.len() - i,
    {
        let c = meta.chunks[i].category.clone();
        let ghost before = categories@;
        categories.push(c);
        assert(strings(categories@) =~= strings(before).push(c@));
        assert(all.take(i + 1) == all.take(i as int).push(c@));
        i += 1;
    }
    assert(all.take(all.len() as int) == all);
    RuleSet { identifier, categories, fallback_identifier }
}

/// A rule set that holds as many chunks as its meta line lists has one category
/// per chunk, the one listed for it; and a rule set always gets the same
/// identifiers and categories.
pub proof fn law_one_category_per_chunk(
    packed: Seq<u8>,
    meta: Meta,
    all: Seq<u8>,
    r: RuleSet,
    again: RuleSet,
)
    requires
        stands_for(r, packed, meta),
        stands_for(again, packed, meta),
        brotli_decoded(packed) == Some(all),
        chunk_lines(utf8_text(all)).len() == meta.chunks@.len(),
    ensures
        r.categories@.len() == chunk_lines(utf8_text(all)).len(),
        forall|i: int|
            0 <= i < r.categories@.len() ==> (#[trigger] r.categories@[i])@
                == meta.chunks@[i].category@,
        r.identifier@ == again.identifier@,
        r.fallback_identifier@ == again.fallback_identifier@,
        strings(r.categories@) == strings(again.categories@),
{
    assert(strings(r.categories@).len() == r.categories@.len());
    assert forall|i: int| 0 <= i < r.categories@.len() implies (#[trigger] r.categories@[i])@
        == meta.chunks@[i].category@ by {
        assert(strings(r.categories@)[i] == r.categories@[i]@);
        assert(chunk_categories(meta.chunks@)[i] == meta.chunks@[i].category@);
    }
}

/// Each dot of a host is escaped, twice over, and no other character is; a host
/// is escaped part by part.
pub proof fn law_dots_are_escaped(a: Seq<char>, b: Seq<char>, c: char)
    ensures
        escaped_host(Seq::empty()) == Seq::<char>::empty(),
        escaped_host(seq!['.']) == seq!['\\', '\\', '.'],
        c != '.' ==> escaped_host(seq![c]) == seq![c],
        escaped_host(a + b) == escaped_host(a) + escaped_host(b),
    decreases b.len(),
{
    reveal_with_fuel(escaped_host, 2);
    let none = Seq::<char>::empty();
    assert(seq![c].drop_last() =~= none);
    assert(seq!['.'].drop_last() =~= none);
    assert(escaped_host(seq!['.']) =~= seq!['\\', '\\', '.']);
    assert(c != '.' ==> escaped_host(seq![c]) =~= seq![c]);
    if b.len() == 0 {
        assert(a + b =~= a);
        assert(escaped_host(a) + escaped_host(b) =~= escaped_host(a));
    } else {
        law_dots_are_escaped(a, b.drop_last(), c);
        assert((a + b).drop_last() =~= a + b.drop_last());
        assert(escaped_host(a + b) =~= escaped_host(a) + escaped_host(b));
    }
}

/// The fallback list is the JSON array of one rule per host, in order.
pub proof fn law_one_rule_per_host(hosts: Seq<&'static str>, host: &'static str)
    ensures
        rule_list(Seq::empty()) == seq!['[', ']'],
        rule_list(seq![host]) == seq!['['] + rule_text(host@) + seq![']'],
        hosts.len() > 0 ==> rule_list(hosts.push(host)) == rule_list(hosts).drop_last() + seq![',']
            + rule_text(host@) + seq![']'],
{
    reveal_with_fuel(rules_text, 2);
    assert(hosts.push(host).drop_last() =~= hosts);
    assert(rule_list(Seq::empty()) =~= seq!['[', ']']);
    assert(rule_list(seq![host]) =~= seq!['['] + rule_text(host@) + seq![']']);
    if hosts.len() > 0 {
        assert(rule_list(hosts).drop_last() =~= seq!['['] + rules_text(hosts));
        assert(rule_list(hosts.push(host)) =~= rule_list(hosts).drop_last() + seq![',']
            + rule_text(host@) + seq![']']);
    }
}

/// A rule blocks what third parties load from the host and its subdomains, over
/// either web scheme.
pub proof fn law_rules_block_third_parties(host: Seq<char>)
    ensures
        rule_text(host)
            == "{\"trigger\":{\"url-filter\":\"^https?://([^/]+\\\\.)?"@ + escaped_host(host)
            + "[/:]\",\"load-type\":[\"third-party\"]},\"action\":{\"type\":\"block\"}}"@,
{
}

/// The hash starts at the offset basis, and each byte is folded in and then
/// multiplied by the prime.
pub proof fn law_fnv_folds_bytes(bytes: Seq<u8>, b: u8)
    ensures
        fnv_of(Seq::empty()) == 14695981039346656037,
        fnv_of(bytes.push(b)) == (fnv_of(bytes) ^ (b as u64)).wrapping_mul(1099511628211),
{
    assert(bytes.push(b).drop_last() =~= bytes);
}

/// The chunks of a rule set are the lines that follow its first, each of them
/// where none is empty.
pub proof fn law_chunks_follow_the_meta_line(meta: Seq<char>, ls: Seq<Seq<char>>)
    requires
        crate::saver::is_line(meta),
        forall|i: int| 0 <= i < ls.len() ==> crate::saver::is_line(#[trigger] ls[i]),
    ensures
        chunk_lines(crate::saver::framed(seq![meta] + ls)) == ls,
{
    let all = seq![meta] + ls;
    assert forall|i: int| 0 <= i < all.len() implies crate::saver::is_line(#[trigger] all[i]) by {
        if i > 0 {
            assert(all[i] == ls[i - 1]);
        }
    }
    assert forall|i: int, j: int| 0 <= i < all.len() && 0 <= j < all[i].len() implies
        #[trigger] all[i][j] != '\n' by {
        assert(crate::saver::is_line(all[i]));
    }
    crate::saver::lemma_lines_framed(all);
    let fields = crate::text::split(crate::saver::framed(all), '\n');
    assert(fields.drop_last() =~= all);
    let ended = all.map_values(|f: Seq<char>| crate::text::without_cr(f));
    assert forall|i: int| 0 <= i < all.len() implies ended[i] == #[trigger] all[i] by {
        assert(crate::saver::is_line(all[i]));
    }
    assert(ended =~= all);
    assert(lines(crate::saver::framed(all)) =~= all);
    assert(all.skip(1) =~= ls);
    lemma_none_empty(ls);
}

proof fn lemma_none_empty(ls: Seq<Seq<char>>)
    requires
        forall|i: int| 0 <= i < ls.len() ==> crate::saver::is_line(#[trigger] ls[i]),
    ensures
        ls.filter(|l: Seq<char>| not_empty(l)) == ls,
    decreases ls.len(),
{
    reveal(Seq::filter);
    if ls.len() == 0 {
        assert(ls.filter(|l: Seq<char>| not_empty(l)) =~= ls);
    } else {
        let m = ls.drop_last();
        assert forall|i: int| 0 <= i < m.len() implies crate::saver::is_line(#[trigger] m[i]) by {
            assert(m[i] == ls[i]);
        }
        lemma_none_empty(m);
        let l = ls[ls.len() - 1];
        assert(crate::saver::is_line(l));
        assert(l.len() > 0) by {
            if l.len() == 0 {
                assert(crate::text::trimmed(l).len() == 0);
            }
        }
        assert(m.push(ls.last()) =~= ls);
    }
}

/// The first line ends at the first line feed, or with the bytes.
pub proof fn law_the_first_line_ends_at_a_line_feed(line: Seq<u8>, rest: Seq<u8>)
    requires
        !line.contains(10u8),
    ensures
        first_line(line) == line,
        first_line(line + seq![10u8] + rest) == line,
{
    let all = line + seq![10u8] + rest;
    assert forall|j: int| 0 <= j < line.len() implies line[j] != 10u8 by {}
    lemma_first_line(line, line.len() as int);
    assert(line.take(line.len() as int) =~= line);
    lemma_first_line(all, line.len() as int);
    assert(all.take(line.len() as int) =~= line);
}

/// Rule sets with different hashes have different identifiers, so that a changed
/// set is compiled anew; none is the fallback's.
pub proof fn law_identifiers_follow_the_hash(
    a: RuleSet,
    b: RuleSet,
    p: Seq<u8>,
    q: Seq<u8>,
    m: Meta,
    n: Meta,
)
    requires
        stands_for(a, p, m),
        stands_for(b, q, n),
    ensures
        a.identifier@ == b.identifier@ <==> fnv_of(p) == fnv_of(q),
        a.fallback_identifier@ == b.fallback_identifier@,
        a.identifier@ != b.fallback_identifier@,
        a.identifier@.take(8) == seq!['f', 'o', 'x', 'l', 'i', 't', 'e', '-'],
        a.fallback_identifier@.take(8) == seq!['f', 'o', 'x', 'l', 'i', 't', 'e', '-'],
{
    reveal_strlit("foxlite-rules-");
    reveal_strlit("foxlite-fallback-");
    crate::addr::law_hexadecimal_round_trip(fnv_of(p));
    crate::addr::law_hexadecimal_round_trip(fnv_of(q));
    crate::addr::law_hexadecimal_round_trip(fnv_of(encode_utf8(rule_list(DOMAINS@))));
    let head = "foxlite-rules-"@;
    assert(a.identifier@.skip(14) =~= hex_digits(fnv_of(p) as nat, 16));
    assert(b.identifier@.skip(14) =~= hex_digits(fnv_of(q) as nat, 16));
    assert(a.identifier@.len() == 30);
    assert(b.fallback_identifier@.len() == 33);
    assert(a.identifier@.take(8) =~= seq!['f', 'o', 'x', 'l', 'i', 't', 'e', '-']);
    assert(a.fallback_identifier@.take(8) =~= seq!['f', 'o', 'x', 'l', 'i', 't', 'e', '-']);
}

} // verus!
