//! What holds of files that were cut short or added to.

use crate::store;
use crate::store::{ErrorView, Got, StateView};
use vstd::prelude::*;

verus! {

/// Whether reading came to the end of a file too soon.
pub open spec fn ended<T>(r: Result<T, ErrorView>) -> bool {
    r matches Err(e) && e is UnexpectedEnd
}

/// What a part of a file says of the whole file, read from the same place: what
/// was read from the part is there in the whole, and what the whole holds there is
/// either in the part or ends too soon.
spec fn agree<T>(part: Got<T>, whole: Got<T>, pos: int, m: int, len: int) -> bool {
    &&& part matches Ok((v, q)) ==> pos <= q <= m && whole == part
    &&& whole matches Ok((v, q)) ==> {
        &&& pos <= q <= len
        &&& q <= m ==> part == whole
        &&& q > m ==> ended(part)
    }
}

/// The part up to `m` where `pos` stands in it, the whole file otherwise.
spec fn up_to(data: Seq<u8>, m: int, pos: int) -> int {
    if pos <= m {
        m
    } else {
        data.len() as int
    }
}

/// A place in a part of a file that can be counted.
spec fn placed(data: Seq<u8>, m: int, pos: int) -> bool {
    0 <= pos <= m <= data.len() <= usize::MAX
}

proof fn bytes_agree(data: Seq<u8>, m: int, pos: int)
    requires
        placed(data, m, pos),
    ensures
        agree(
            store::u8_at(data.take(m), pos),
            store::u8_at(data, pos),
            pos,
            m,
            data.len() as int,
        ),
{
}

proof fn shorts_agree(data: Seq<u8>, m: int, pos: int)
    requires
        placed(data, m, pos),
    ensures
        agree(
            store::u16_at(data.take(m), pos),
            store::u16_at(data, pos),
            pos,
            m,
            data.len() as int,
        ),
{
}

proof fn words_agree(data: Seq<u8>, m: int, pos: int)
    requires
        placed(data, m, pos),
    ensures
        agree(
            store::u32_at(data.take(m), pos),
            store::u32_at(data, pos),
            pos,
            m,
            data.len() as int,
        ),
{
}

proof fn texts_agree(data: Seq<u8>, m: int, pos: int)
    requires
        placed(data, m, pos),
    ensures
        agree(
            store::text_at(data.take(m), pos),
            store::text_at(data, pos),
            pos,
            m,
            data.len() as int,
        ),
{
    let part = data.take(m);
    shorts_agree(data, m, pos);
    if let Ok((len, start)) = store::u16_at(data, pos) {
        if start + len <= m {
            assert(part.subrange(start, start + len) =~= data.subrange(start, start + len));
        }
    }
}

proof fn options_agree(data: Seq<u8>, m: int, pos: int)
    requires
        placed(data, m, pos),
    ensures
        agree(
            store::opt_at(data.take(m), pos),
            store::opt_at(data, pos),
            pos,
            m,
            data.len() as int,
        ),
{
    bytes_agree(data, m, pos);
    if let Ok((tag, start)) = store::u8_at(data, pos) {
        texts_agree(data, up_to(data, m, start), start);
    }
}

proof fn levels_agree(data: Seq<u8>, m: int, pos: int)
    requires
        placed(data, m, pos),
    ensures
        agree(
            store::level_at(data.take(m), pos),
            store::level_at(data, pos),
            pos,
            m,
            data.len() as int,
        ),
{
    texts_agree(data, m, pos);
    if let Ok((key, p1)) = store::text_at(data, pos) {
        if p1 <= m {
            words_agree(data, m, p1);
            if p1 + 4 <= m {
                bytes_agree(data, m, p1 + 4);
            }
        }
    }
}

proof fn device_lists_agree(data: Seq<u8>, m: int, pos: int, n: int)
    requires
        placed(data, m, pos),
    ensures
        agree(
            store::device_list_at(data.take(m), pos, n),
            store::device_list_at(data, pos, n),
            pos,
            m,
            data.len() as int,
        ),
    decreases n,
{
    if n > 0 {
        device_lists_agree(data, m, pos, n - 1);
        if let Ok((entries, p)) = store::device_list_at(data, pos, n - 1) {
            levels_agree(data, up_to(data, m, p), p);
        }
    }
}

proof fn devices_agree(data: Seq<u8>, m: int, pos: int)
    requires
        placed(data, m, pos),
    ensures
        agree(
            store::devices_at(data.take(m), pos),
            store::devices_at(data, pos),
            pos,
            m,
            data.len() as int,
        ),
{
    words_agree(data, m, pos);
    if let Ok((count, p)) = store::u32_at(data, pos) {
        device_lists_agree(data, up_to(data, m, p), p, count as int);
    }
}

proof fn apps_agree(data: Seq<u8>, m: int, pos: int)
    requires
        placed(data, m, pos),
    ensures
        agree(
            store::app_at(data.take(m), pos),
            store::app_at(data, pos),
            pos,
            m,
            data.len() as int,
        ),
{
    levels_agree(data, m, pos);
    if let Ok((level, p)) = store::level_at(data, pos) {
        options_agree(data, up_to(data, m, p), p);
    }
}

proof fn app_lists_agree(data: Seq<u8>, m: int, pos: int, n: int)
    requires
        placed(data, m, pos),
    ensures
        agree(
            store::app_list_at(data.take(m), pos, n),
            store::app_list_at(data, pos, n),
            pos,
            m,
            data.len() as int,
        ),
    decreases n,
{
    if n > 0 {
        app_lists_agree(data, m, pos, n - 1);
        if let Ok((entries, p)) = store::app_list_at(data, pos, n - 1) {
            apps_agree(data, up_to(data, m, p), p);
        }
    }
}

proof fn app_maps_agree(data: Seq<u8>, m: int, pos: int)
    requires
        placed(data, m, pos),
    ensures
        agree(
            store::apps_at(data.take(m), pos),
            store::apps_at(data, pos),
            pos,
            m,
            data.len() as int,
        ),
{
    words_agree(data, m, pos);
    if let Ok((count, p)) = store::u32_at(data, pos) {
        app_lists_agree(data, up_to(data, m, p), p, count as int);
    }
}

proof fn filters_agree(data: Seq<u8>, m: int, pos: int)
    requires
        placed(data, m, pos),
    ensures
        agree(
            store::filter_at(data.take(m), pos),
            store::filter_at(data, pos),
            pos,
            m,
            data.len() as int,
        ),
{
}

#[verifier::rlimit(60)]
proof fn profiles_agree(data: Seq<u8>, m: int, pos: int)
    requires
        placed(data, m, pos),
    ensures
        agree(
            store::profile_at(data.take(m), pos),
            store::profile_at(data, pos),
            pos,
            m,
            data.len() as int,
        ),
{
    reveal(store::profile_at);
    texts_agree(data, m, pos);
    if let Ok((name, p1)) = store::text_at(data, pos) {
        options_agree(data, up_to(data, m, p1), p1);
        if let Ok((sink, p2)) = store::opt_at(data, p1) {
            devices_agree(data, up_to(data, m, p2), p2);
            if let Ok((sinks, p3)) = store::devices_at(data, p2) {
                app_maps_agree(data, up_to(data, m, p3), p3);
                if let Ok((apps, p4)) = store::apps_at(data, p3) {
                    options_agree(data, up_to(data, m, p4), p4);
                    if let Ok((source, p5)) = store::opt_at(data, p4) {
                        devices_agree(data, up_to(data, m, p5), p5);
                        if let Ok((sources, p6)) = store::devices_at(data, p5) {
                            filters_agree(data, up_to(data, m, p6), p6);
                        }
                    }
                }
            }
        }
    }
}

proof fn profile_lists_agree(data: Seq<u8>, m: int, pos: int, n: int)
    requires
        placed(data, m, pos),
    ensures
        agree(
            store::profile_list_at(data.take(m), pos, n),
            store::profile_list_at(data, pos, n),
            pos,
            m,
            data.len() as int,
        ),
    decreases n,
{
    if n > 0 {
        profile_lists_agree(data, m, pos, n - 1);
        if let Ok((profiles, p)) = store::profile_list_at(data, pos, n - 1) {
            profiles_agree(data, up_to(data, m, p), p);
        }
    }
}

proof fn windows_agree(data: Seq<u8>, m: int)
    requires
        placed(data, m, 0),
    ensures
        agree(
            store::window_at(data.take(m)),
            store::window_at(data),
            0,
            m,
            data.len() as int,
        ),
{
    if m >= 4 {
        assert(data.take(m).subrange(0, 4) =~= data.subrange(0, 4));
    }
}

/// A file cut short anywhere ends unexpectedly: no part of a file that reads is
/// taken for a whole one, or for anything else that is wrong with a file.
pub proof fn cut_files_end_unexpectedly(data: Seq<u8>, m: int)
    requires
        store::state_at(data) is Ok,
        data.len() <= usize::MAX,
        0 <= m < data.len(),
    ensures
        ended(store::state_at(data.take(m))),
{
    windows_agree(data, m);
    if let Ok((window, p1)) = store::window_at(data) {
        if p1 <= m {
            options_agree(data, m, p1);
            if let Ok((active, p2)) = store::opt_at(data, p1) {
                if p2 <= m {
                    words_agree(data, m, p2);
                    if let Ok((count, p3)) = store::u32_at(data, p2) {
                        if p3 <= m {
                            profile_lists_agree(data, m, p3, count as int);
                        }
                    }
                }
            }
        }
    }
}

/// Bytes behind a file are reported as trailing, with their number.
pub proof fn trailing_bytes_are_counted(data: Seq<u8>, more: Seq<u8>)
    requires
        store::state_at(data) is Ok,
        more.len() > 0,
        data.len() + more.len() <= usize::MAX,
    ensures
        store::state_at(data + more) == Err::<StateView, ErrorView>(
            ErrorView::TrailingBytes(more.len() as usize),
        ),
{
    let all = data + more;
    let m = data.len() as int;
    assert(all.take(m) =~= data);
    windows_agree(all, m);
    if let Ok((window, p1)) = store::window_at(data) {
        options_agree(all, m, p1);
        if let Ok((active, p2)) = store::opt_at(data, p1) {
            words_agree(all, m, p2);
            if let Ok((count, p3)) = store::u32_at(data, p2) {
                profile_lists_agree(all, m, p3, count as int);
            }
        }
    }
}

/// A written file is read whole or not at all: every proper part of it from its
/// start ends unexpectedly, and bytes behind it are reported as trailing, with
/// their number.
pub proof fn written_files_are_read_whole(s: StateView, m: int, more: Seq<u8>)
    requires
        s.profiles.wf(),
        store::state_bytes(s) is Ok,
        store::state_bytes(s)->Ok_0.len() + more.len() <= usize::MAX,
    ensures
        0 <= m < store::state_bytes(s)->Ok_0.len() ==> ended(
            store::state_at(store::state_bytes(s)->Ok_0.take(m)),
        ),
        more.len() > 0 ==> store::state_at(store::state_bytes(s)->Ok_0 + more) == Err::<
            StateView,
            ErrorView,
        >(ErrorView::TrailingBytes(more.len() as usize)),
{
    let data = store::state_bytes(s)->Ok_0;
    store::decode_undoes_encode(s);
    if 0 <= m < data.len() {
        cut_files_end_unexpectedly(data, m);
    }
    if more.len() > 0 {
        trailing_bytes_are_counted(data, more);
    }
}

} // verus!
