//! How the state file is laid out, byte by byte.

use crate::domain::SectionFilter;
use crate::geometry::Geometry;
use crate::profile::{AppEntries, AppSettingsView, DeviceEntries, DeviceSettings, ProfileView};
use crate::store;
use crate::store::StateView;
use vstd::prelude::*;
use vstd::utf8::*;

verus! {

// --- What lies where ------------------------------------------------------------------------

/// The number in two bytes, the lower first.
pub open spec fn word(data: Seq<u8>, p: int) -> int {
    data[p] + 256 * data[p + 1]
}

/// The number in four bytes, the lowest first.
pub open spec fn long(data: Seq<u8>, p: int) -> int {
    data[p] + 256 * data[p + 1] + 65536 * data[p + 2] + 16777216 * data[p + 3]
}

/// One where something holds, zero where it does not.
pub open spec fn switch(data: Seq<u8>, p: int, on: bool) -> bool {
    data[p] == if on {
        1u8
    } else {
        0u8
    }
}

/// A text: how many bytes it takes, then those.
pub open spec fn text_lies(data: Seq<u8>, p: int, t: Seq<char>, q: int) -> bool {
    &&& 0 <= p
    &&& q == p + 2 + encode_utf8(t).len()
    &&& q <= data.len()
    &&& word(data, p) == encode_utf8(t).len()
    &&& data.subrange(p + 2, q) == encode_utf8(t)
}

/// A text that may be absent: whether it is there, then the text.
pub open spec fn option_lies(data: Seq<u8>, p: int, o: Option<Seq<char>>, q: int) -> bool {
    &&& 0 <= p < data.len()
    &&& switch(data, p, o is Some)
    &&& match o {
        None => q == p + 1,
        Some(t) => text_lies(data, p + 1, t, q),
    }
}

/// A device's preset: its key up to `m`, its volume, its mute.
pub open spec fn device_lies(
    data: Seq<u8>,
    p: int,
    e: (Seq<char>, DeviceSettings),
    m: int,
    q: int,
) -> bool {
    &&& text_lies(data, p, e.0, m)
    &&& q == m + 5
    &&& q <= data.len()
    &&& long(data, m) == e.1.volume.bits
    &&& switch(data, m + 4, e.1.muted)
}

/// Whether a device's preset lies from `p` up to `q`.
pub open spec fn device_between(
    data: Seq<u8>,
    p: int,
    e: (Seq<char>, DeviceSettings),
    q: int,
) -> bool {
    exists|m: int| device_lies(data, p, e, m, q)
}

/// Device presets: how many, then one behind the other from each place in `at` to the
/// next.
pub open spec fn devices_lie(
    data: Seq<u8>,
    p: int,
    entries: DeviceEntries,
    at: Seq<int>,
    q: int,
) -> bool {
    &&& 0 <= p
    &&& p + 4 <= data.len()
    &&& long(data, p) == entries.len()
    &&& at.len() == entries.len() + 1
    &&& at[0] == p + 4
    &&& at.last() == q
    &&& forall|k: int|
        0 <= k < entries.len() ==> device_between(data, at[k], #[trigger] entries[k], at[k + 1])
}

/// An application's preset: its key up to `m`, its volume, its mute, its output.
pub open spec fn app_lies(
    data: Seq<u8>,
    p: int,
    e: (Seq<char>, AppSettingsView),
    m: int,
    q: int,
) -> bool {
    &&& text_lies(data, p, e.0, m)
    &&& m + 5 <= data.len()
    &&& long(data, m) == e.1.volume.bits
    &&& switch(data, m + 4, e.1.muted)
    &&& option_lies(data, m + 5, e.1.target_sink_name, q)
}

/// Whether a application's preset lies from `p` up to `q`.
pub open spec fn app_between(
    data: Seq<u8>,
    p: int,
    e: (Seq<char>, AppSettingsView),
    q: int,
) -> bool {
    exists|m: int| app_lies(data, p, e, m, q)
}

/// Application presets: how many, then one behind the other.
pub open spec fn apps_lie(
    data: Seq<u8>,
    p: int,
    entries: AppEntries,
    at: Seq<int>,
    q: int,
) -> bool {
    &&& 0 <= p
    &&& p + 4 <= data.len()
    &&& long(data, p) == entries.len()
    &&& at.len() == entries.len() + 1
    &&& at[0] == p + 4
    &&& at.last() == q
    &&& forall|k: int|
        0 <= k < entries.len() ==> app_between(data, at[k], #[trigger] entries[k], at[k + 1])
}

/// The sections on show: outputs, inputs, apps.
pub open spec fn sections_lie(data: Seq<u8>, p: int, f: SectionFilter, q: int) -> bool {
    &&& q == p + 3
    &&& 0 <= p
    &&& q <= data.len()
    &&& switch(data, p, f.outputs)
    &&& switch(data, p + 1, f.inputs)
    &&& switch(data, p + 2, f.apps)
}

/// Where the parts of a page begin.
pub struct Page {
    pub sink: int,
    pub sinks: int,
    pub apps: int,
    pub source: int,
    pub sources: int,
    pub sections: int,
    pub sinks_at: Seq<int>,
    pub apps_at: Seq<int>,
    pub sources_at: Seq<int>,
}

/// A profile's page: its name, its output, the outputs' presets, the applications'
/// presets, its input, the inputs' presets, the sections on show.
pub open spec fn page_lies(data: Seq<u8>, p: int, f: ProfileView, page: Page, q: int) -> bool {
    &&& text_lies(data, p, f.name, page.sink)
    &&& option_lies(data, page.sink, f.default_sink, page.sinks)
    &&& devices_lie(data, page.sinks, f.sinks, page.sinks_at, page.apps)
    &&& apps_lie(data, page.apps, f.apps, page.apps_at, page.source)
    &&& option_lies(data, page.source, f.default_source, page.sources)
    &&& devices_lie(data, page.sources, f.sources, page.sources_at, page.sections)
    &&& sections_lie(data, page.sections, f.section_filter, q)
}

/// Whether a profile's page lies from `p` up to `q`.
pub open spec fn page_between(data: Seq<u8>, p: int, e: ProfileView, q: int) -> bool {
    exists|page: Page| page_lies(data, p, e, page, q)
}

/// The whole file: its mark and version, the window, the active profile up to `m`, how
/// many pages there are, and each from its place in `at` to the next.
pub open spec fn file_lies(data: Seq<u8>, s: StateView, m: int, at: Seq<int>) -> bool {
    let profiles = s.profiles.profiles;
    &&& data.len() >= 14
    &&& data.take(5) == seq!['B' as u8, 'N' as u8, 'K' as u8, 'Z' as u8, 3u8]
    &&& long(data, 5) == s.window.width
    &&& long(data, 9) == s.window.height
    &&& switch(data, 13, s.window.maximized)
    &&& option_lies(data, 14, s.profiles.active, m)
    &&& m + 4 <= data.len()
    &&& long(data, m) == profiles.len()
    &&& at.len() == profiles.len() + 1
    &&& at[0] == m + 4
    &&& at.last() == data.len()
    &&& forall|k: int|
        0 <= k < profiles.len() ==> page_between(data, at[k], #[trigger] profiles[k], at[k + 1])
}

// --- Bytes in a file ------------------------------------------------------------------------

/// Whether a file holds these bytes at a place.
#[verifier::opaque]
spec fn holds(data: Seq<u8>, p: int, b: Seq<u8>) -> bool {
    0 <= p && p + b.len() <= data.len() && data.subrange(p, p + b.len()) == b
}

proof fn both_hold(data: Seq<u8>, p: int, a: Seq<u8>, b: Seq<u8>)
    requires
        holds(data, p, a + b),
    ensures
        holds(data, p, a),
        holds(data, p + a.len(), b),
{
    reveal(holds);
    let all = data.subrange(p, p + a.len() + b.len());
    assert(all == a + b);
    assert(data.subrange(p, p + a.len()) =~= all.take(a.len() as int));
    assert(all.take(a.len() as int) =~= a);
    assert(data.subrange(p + a.len(), p + a.len() + b.len()) =~= all.skip(a.len() as int));
    assert(all.skip(a.len() as int) =~= b);
}

proof fn at_holds(data: Seq<u8>, p: int, b: Seq<u8>, i: int)
    requires
        holds(data, p, b),
        0 <= i < b.len(),
    ensures
        data[p + i] == b[i],
        0 <= p,
        p + b.len() <= data.len(),
{
    reveal(holds);
    assert(data.subrange(p, p + b.len())[i] == b[i]);
}

proof fn long_holds(data: Seq<u8>, p: int, v: u32)
    requires
        holds(data, p, store::le32(v)),
    ensures
        long(data, p) == v,
        0 <= p,
        p + 4 <= data.len(),
{
    at_holds(data, p, store::le32(v), 0);
    at_holds(data, p, store::le32(v), 1);
    at_holds(data, p, store::le32(v), 2);
    at_holds(data, p, store::le32(v), 3);
    let (a, b, c, d) = (v as u8, (v >> 8) as u8, (v >> 16) as u8, (v >> 24) as u8);
    assert(a + 256 * b + 65536 * c + 16777216 * d == v) by (bit_vector)
        requires
            a == v as u8,
            b == (v >> 8) as u8,
            c == (v >> 16) as u8,
            d == (v >> 24) as u8,
    ;
}

proof fn text_holds(data: Seq<u8>, p: int, t: Seq<char>)
    requires
        store::text_bytes(t) is Ok,
        holds(data, p, store::text_bytes(t)->Ok_0),
    ensures
        text_lies(data, p, t, p + store::text_bytes(t)->Ok_0.len()),
{
    reveal(holds);
    let bytes = encode_utf8(t);
    let n = bytes.len() as u16;
    both_hold(data, p, store::le16(n), bytes);
    at_holds(data, p, store::le16(n), 0);
    at_holds(data, p, store::le16(n), 1);
    let (a, b) = (n as u8, (n >> 8) as u8);
    assert(a + 256 * b == n) by (bit_vector)
        requires
            a == n as u8,
            b == (n >> 8) as u8,
    ;
}

proof fn option_holds(data: Seq<u8>, p: int, o: Option<Seq<char>>)
    requires
        store::opt_bytes(o) is Ok,
        holds(data, p, store::opt_bytes(o)->Ok_0),
    ensures
        option_lies(data, p, o, p + store::opt_bytes(o)->Ok_0.len()),
{
    at_holds(data, p, store::opt_bytes(o)->Ok_0, 0);
    if let Some(t) = o {
        both_hold(data, p, seq![1u8], store::text_bytes(t)->Ok_0);
        text_holds(data, p + 1, t);
    }
}

proof fn level_holds(data: Seq<u8>, m: int, bits: u32, muted: bool)
    requires
        holds(data, m, store::le32(bits) + seq![store::flag_byte(muted)]),
    ensures
        m + 5 <= data.len(),
        long(data, m) == bits,
        switch(data, m + 4, muted),
{
    both_hold(data, m, store::le32(bits), seq![store::flag_byte(muted)]);
    long_holds(data, m, bits);
    at_holds(data, m + 4, seq![store::flag_byte(muted)], 0);
}

proof fn device_holds(data: Seq<u8>, p: int, e: (Seq<char>, DeviceSettings))
    requires
        store::device_bytes(e) is Ok,
        holds(data, p, store::device_bytes(e)->Ok_0),
    ensures
        device_lies(
            data,
            p,
            e,
            p + store::text_bytes(e.0)->Ok_0.len(),
            p + store::device_bytes(e)->Ok_0.len(),
        ),
{
    let key = store::text_bytes(e.0)->Ok_0;
    both_hold(data, p, key, store::le32(e.1.volume.bits) + seq![store::flag_byte(e.1.muted)]);
    text_holds(data, p, e.0);
    level_holds(data, p + key.len(), e.1.volume.bits, e.1.muted);
}

proof fn devices_hold(data: Seq<u8>, p: int, entries: DeviceEntries, n: int) -> (at: Seq<int>)
    requires
        0 <= n <= entries.len(),
        store::device_list_bytes(entries, n) is Ok,
        holds(data, p, store::device_list_bytes(entries, n)->Ok_0),
    ensures
        at.len() == n + 1,
        at[0] == p,
        at[n] == p + store::device_list_bytes(entries, n)->Ok_0.len(),
        forall|k: int|
            0 <= k < n ==> device_between(data, at[k], #[trigger] entries[k], at[k + 1]),
    decreases n,
{
    if n == 0 {
        seq![p]
    } else {
        let before = store::device_list_bytes(entries, n - 1)->Ok_0;
        let own = store::device_bytes(entries[n - 1])->Ok_0;
        both_hold(data, p, before, own);
        let less = devices_hold(data, p, entries, n - 1);
        device_holds(data, p + before.len(), entries[n - 1]);
        let at = less.push(p + before.len() + own.len());
        assert forall|k: int| 0 <= k < n implies device_between(
            data,
            at[k],
            #[trigger] entries[k],
            at[k + 1],
        ) by {
            if k < n - 1 {
                assert(device_between(data, less[k], entries[k], less[k + 1]));
            } else {
                let m = p + before.len() + store::text_bytes(entries[k].0)->Ok_0.len();
                assert(device_lies(data, at[k], entries[k], m, at[k + 1]));
            }
        }
        at
    }
}

proof fn counted_devices_hold(data: Seq<u8>, p: int, name: Seq<char>, entries: DeviceEntries) -> (at:
    Seq<int>)
    requires
        store::devices_bytes(name, entries) is Ok,
        holds(data, p, store::devices_bytes(name, entries)->Ok_0),
    ensures
        devices_lie(data, p, entries, at, p + store::devices_bytes(name, entries)->Ok_0.len()),
{
    let n = entries.len();
    both_hold(
        data,
        p,
        store::le32(n as u32),
        store::device_list_bytes(entries, n as int)->Ok_0,
    );
    long_holds(data, p, n as u32);
    devices_hold(data, p + 4, entries, n as int)
}

proof fn app_holds(data: Seq<u8>, p: int, e: (Seq<char>, AppSettingsView))
    requires
        store::app_bytes(e) is Ok,
        holds(data, p, store::app_bytes(e)->Ok_0),
    ensures
        app_lies(
            data,
            p,
            e,
            p + store::text_bytes(e.0)->Ok_0.len(),
            p + store::app_bytes(e)->Ok_0.len(),
        ),
{
    let key = store::text_bytes(e.0)->Ok_0;
    let level = store::le32(e.1.volume.bits) + seq![store::flag_byte(e.1.muted)];
    let to = store::opt_bytes(e.1.target_sink_name)->Ok_0;
    both_hold(data, p, key + level, to);
    both_hold(data, p, key, level);
    text_holds(data, p, e.0);
    level_holds(data, p + key.len(), e.1.volume.bits, e.1.muted);
    option_holds(data, p + key.len() + 5, e.1.target_sink_name);
}

proof fn apps_hold(data: Seq<u8>, p: int, entries: AppEntries, n: int) -> (at: Seq<int>)
    requires
        0 <= n <= entries.len(),
        store::app_list_bytes(entries, n) is Ok,
        holds(data, p, store::app_list_bytes(entries, n)->Ok_0),
    ensures
        at.len() == n + 1,
        at[0] == p,
        at[n] == p + store::app_list_bytes(entries, n)->Ok_0.len(),
        forall|k: int|
            0 <= k < n ==> app_between(data, at[k], #[trigger] entries[k], at[k + 1]),
    decreases n,
{
    if n == 0 {
        seq![p]
    } else {
        let before = store::app_list_bytes(entries, n - 1)->Ok_0;
        let own = store::app_bytes(entries[n - 1])->Ok_0;
        both_hold(data, p, before, own);
        let less = apps_hold(data, p, entries, n - 1);
        app_holds(data, p + before.len(), entries[n - 1]);
        let at = less.push(p + before.len() + own.len());
        assert forall|k: int| 0 <= k < n implies app_between(
            data,
            at[k],
            #[trigger] entries[k],
            at[k + 1],
        ) by {
            if k < n - 1 {
                assert(app_between(data, less[k], entries[k], less[k + 1]));
            } else {
                let m = p + before.len() + store::text_bytes(entries[k].0)->Ok_0.len();
                assert(app_lies(data, at[k], entries[k], m, at[k + 1]));
            }
        }
        at
    }
}

proof fn counted_apps_hold(data: Seq<u8>, p: int, name: Seq<char>, entries: AppEntries) -> (at: Seq<
    int,
>)
    requires
        store::apps_bytes(name, entries) is Ok,
        holds(data, p, store::apps_bytes(name, entries)->Ok_0),
    ensures
        apps_lie(data, p, entries, at, p + store::apps_bytes(name, entries)->Ok_0.len()),
{
    let n = entries.len();
    both_hold(data, p, store::le32(n as u32), store::app_list_bytes(entries, n as int)->Ok_0);
    long_holds(data, p, n as u32);
    apps_hold(data, p + 4, entries, n as int)
}

proof fn sections_hold(data: Seq<u8>, p: int, f: SectionFilter)
    requires
        holds(data, p, store::filter_bytes(f)),
    ensures
        sections_lie(data, p, f, p + store::filter_bytes(f).len()),
{
    at_holds(data, p, store::filter_bytes(f), 0);
    at_holds(data, p, store::filter_bytes(f), 1);
    at_holds(data, p, store::filter_bytes(f), 2);
}

proof fn page_holds(data: Seq<u8>, p: int, f: ProfileView) -> (page: Page)
    requires
        store::profile_bytes(f) is Ok,
        holds(data, p, store::profile_bytes(f)->Ok_0),
    ensures
        page_lies(data, p, f, page, p + store::profile_bytes(f)->Ok_0.len()),
{
    reveal(store::profile_bytes);
    let b1 = store::text_bytes(f.name)->Ok_0;
    let b2 = store::opt_bytes(f.default_sink)->Ok_0;
    let b3 = store::devices_bytes(f.name, f.sinks)->Ok_0;
    let b4 = store::apps_bytes(f.name, f.apps)->Ok_0;
    let b5 = store::opt_bytes(f.default_source)->Ok_0;
    let b6 = store::devices_bytes(f.name, f.sources)->Ok_0;
    let b7 = store::filter_bytes(f.section_filter);
    both_hold(data, p, b1 + b2 + b3 + b4 + b5 + b6, b7);
    both_hold(data, p, b1 + b2 + b3 + b4 + b5, b6);
    both_hold(data, p, b1 + b2 + b3 + b4, b5);
    both_hold(data, p, b1 + b2 + b3, b4);
    both_hold(data, p, b1 + b2, b3);
    both_hold(data, p, b1, b2);
    let sink = p + b1.len();
    let sinks = sink + b2.len();
    let apps = sinks + b3.len();
    let source = apps + b4.len();
    let sources = source + b5.len();
    let sections = sources + b6.len();
    text_holds(data, p, f.name);
    option_holds(data, sink, f.default_sink);
    let sinks_at = counted_devices_hold(data, sinks, f.name, f.sinks);
    let apps_at = counted_apps_hold(data, apps, f.name, f.apps);
    option_holds(data, source, f.default_source);
    let sources_at = counted_devices_hold(data, sources, f.name, f.sources);
    sections_hold(data, sections, f.section_filter);
    Page { sink, sinks, apps, source, sources, sections, sinks_at, apps_at, sources_at }
}

proof fn pages_hold(data: Seq<u8>, p: int, profiles: Seq<ProfileView>, n: int) -> (at: Seq<int>)
    requires
        0 <= n <= profiles.len(),
        store::profile_list_bytes(profiles, n) is Ok,
        holds(data, p, store::profile_list_bytes(profiles, n)->Ok_0),
    ensures
        at.len() == n + 1,
        at[0] == p,
        at[n] == p + store::profile_list_bytes(profiles, n)->Ok_0.len(),
        forall|k: int|
            0 <= k < n ==> page_between(data, at[k], #[trigger] profiles[k], at[k + 1]),
    decreases n,
{
    if n == 0 {
        seq![p]
    } else {
        let before = store::profile_list_bytes(profiles, n - 1)->Ok_0;
        let own = store::profile_bytes(profiles[n - 1])->Ok_0;
        both_hold(data, p, before, own);
        let less = pages_hold(data, p, profiles, n - 1);
        let last = page_holds(data, p + before.len(), profiles[n - 1]);
        let at = less.push(p + before.len() + own.len());
        assert forall|k: int| 0 <= k < n implies page_between(
            data,
            at[k],
            #[trigger] profiles[k],
            at[k + 1],
        ) by {
            if k < n - 1 {
                assert(page_between(data, less[k], profiles[k], less[k + 1]));
            } else {
                assert(page_lies(data, at[k], profiles[k], last, at[k + 1]));
            }
        }
        at
    }
}

proof fn head_holds(data: Seq<u8>, g: Geometry)
    requires
        holds(data, 0, store::window_bytes(g)),
    ensures
        data.len() >= 14,
        data.take(5) == seq!['B' as u8, 'N' as u8, 'K' as u8, 'Z' as u8, 3u8],
        long(data, 5) == g.width,
        long(data, 9) == g.height,
        switch(data, 13, g.maximized),
{
    let mark = store::MAGIC@ + seq![store::VERSION];
    let flag = seq![store::flag_byte(g.maximized)];
    both_hold(data, 0, mark + store::le32(g.width) + store::le32(g.height), flag);
    both_hold(data, 0, mark + store::le32(g.width), store::le32(g.height));
    both_hold(data, 0, mark, store::le32(g.width));
    long_holds(data, 5, g.width);
    long_holds(data, 9, g.height);
    at_holds(data, 13, flag, 0);
    reveal(holds);
    assert(data.take(5) =~= data.subrange(0, 5));
    assert(mark =~= seq!['B' as u8, 'N' as u8, 'K' as u8, 'Z' as u8, 3u8]);
}

proof fn whole_holds(data: Seq<u8>, a: Seq<u8>, b: Seq<u8>, c: Seq<u8>, d: Seq<u8>)
    requires
        data == (a + b) + (c + d),
    ensures
        holds(data, 0, a),
        holds(data, a.len() as int, b),
        holds(data, (a.len() + b.len()) as int, c),
        holds(data, (a.len() + b.len() + c.len()) as int, d),
{
    reveal(holds);
    assert(data.subrange(0, data.len() as int) =~= data);
    both_hold(data, 0, a + b, c + d);
    both_hold(data, 0, a, b);
    both_hold(data, (a.len() + b.len()) as int, c, d);
}

/// Every file written is laid out as the format says, from its mark to its last page.
pub proof fn files_are_laid_out_as_the_format_says(s: StateView)
    requires
        store::state_bytes(s) is Ok,
    ensures
        exists|m: int, at: Seq<int>| file_lies(store::state_bytes(s)->Ok_0, s, m, at),
{
    let data = store::state_bytes(s)->Ok_0;
    let profiles = s.profiles.profiles;
    let n = profiles.len();
    let head = store::window_bytes(s.window);
    let active = store::opt_bytes(s.profiles.active)->Ok_0;
    let count = store::le32(n as u32);
    let pages = store::profile_list_bytes(profiles, n as int)->Ok_0;
    let m = 14int + active.len();
    assert(data == (head + active) + (count + pages));
    assert(head.len() == 14);
    assert(count.len() == 4);
    whole_holds(data, head, active, count, pages);
    head_holds(data, s.window);
    option_holds(data, 14, s.profiles.active);
    long_holds(data, m, n as u32);
    let at = pages_hold(data, m + 4, profiles, n as int);
    assert(file_lies(data, s, m, at));
}

} // verus!
