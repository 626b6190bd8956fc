//! The sound-server scan's identity rules: which stream properties make an
//! app, which streams are our own (we record, so our own capture must never
//! read as a meeting), and one row per app.

use vstd::prelude::*;

use crate::text::{
    chars_of, contains, same_text, contains_exec, lowercase, parse_u32, parse_u32_spec, str_to_lowercase,
    trim, trim_bounds, trim_string, views,
};
use crate::types::{opt_view, AppId};

verus! {

/// A monitor source to record, plus the geometry the server will hand over.
pub struct MonitorTarget {
    pub source_name: String,
    pub sink_description: String,
    pub channels: u8,
    pub rate: u32,
}

/// The three properties of a stream the scan reads:
/// `application.process.id`, `application.process.binary` and
/// `application.name`, each when the stream sets it.
pub struct StreamProps {
    pub process_id: Option<String>,
    pub process_binary: Option<String>,
    pub application_name: Option<String>,
}

/// The ids an app is known by, lowercased: its executable name and its
/// display name, each when present.
pub open spec fn lowered_ids(exe: Option<Seq<char>>, display_name: Option<Seq<char>>) -> Seq<
    Seq<char>,
> {
    let a = match exe {
        Some(e) => seq![lowercase(e)],
        None => Seq::empty(),
    };
    let b = match display_name {
        Some(d) => seq![lowercase(d)],
        None => Seq::empty(),
    };
    a + b
}

/// Whether a stream is one of ours: its pid is ours (a pid of 0 means the
/// server did not say), or one of its ids contains one of our names.
pub open spec fn is_our_own_spec(
    pid: u32,
    exclude_pid: u32,
    exe: Option<Seq<char>>,
    display_name: Option<Seq<char>>,
    markers: Seq<Seq<char>>,
) -> bool {
    (pid != 0 && pid == exclude_pid) || exists|m: int, k: int|
        0 <= m < markers.len() && 0 <= k < lowered_ids(exe, display_name).len() && contains(
            #[trigger] lowered_ids(exe, display_name)[k],
            #[trigger] markers[m],
        )
}

/// Whether a stream is one of ours. `markers` are our own names,
/// lowercased (the package name and the executable's file name).
pub fn is_our_own(
    pid: u32,
    exclude_pid: u32,
    exe: Option<&str>,
    display_name: Option<&str>,
    markers: &[String],
) -> (r: bool)
    ensures
        r == is_our_own_spec(
            pid,
            exclude_pid,
            match exe {
                Some(e) => Some(e@),
                None => None,
            },
            match display_name {
                Some(d) => Some(d@),
                None => None,
            },
            views(markers@),
        ),
{
    if pid != 0 && pid == exclude_pid {
        return true;
    }
    let ghost ev = match exe {
        Some(e) => Some(e@),
        None => None::<Seq<char>>,
    };
    let ghost dv = match display_name {
        Some(d) => Some(d@),
        None => None::<Seq<char>>,
    };
    let mut ids: Vec<Vec<char>> = Vec::new();
    match exe {
        Some(e) => {
            let l = str_to_lowercase(e);
            ids.push(chars_of(l.as_str()));
        },
        None => {},
    }
    match display_name {
        Some(d) => {
            let l = str_to_lowercase(d);
            ids.push(chars_of(l.as_str()));
        },
        None => {},
    }
    let ghost idv = ids@.map_values(|v: Vec<char>| v@);
    proof {
        assert(idv =~= lowered_ids(ev, dv));
    }
    let mut m: usize = 0;
    while m < markers.len()
        invariant
            m <= markers@.len(),
            idv == ids@.map_values(|v: Vec<char>| v@),
            idv == lowered_ids(ev, dv),
            ev == match exe {
                Some(e) => Some(e@),
                None => None::<Seq<char>>,
            },
            dv == match display_name {
                Some(d) => Some(d@),
                None => None::<Seq<char>>,
            },
            !(pid != 0 && pid == exclude_pid),
            forall|a: int, k: int|
                0 <= a < m && 0 <= k < idv.len() ==> !contains(
                    #[trigger] idv[k],
                    #[trigger] views(markers@)[a],
                ),
        decreases markers.len() - m,
    {
        let own = chars_of(markers[m].as_str());
        let mut k: usize = 0;
        while k < ids.len()
            invariant
                m < markers@.len(),
                k <= ids@.len(),
                own@ == markers@[m as int]@,
                idv == ids@.map_values(|v: Vec<char>| v@),
                idv == lowered_ids(ev, dv),
                ev == match exe {
                    Some(e) => Some(e@),
                    None => None::<Seq<char>>,
                },
                dv == match display_name {
                    Some(d) => Some(d@),
                    None => None::<Seq<char>>,
                },
                forall|a: int, j: int|
                    0 <= a < m && 0 <= j < idv.len() ==> !contains(
                        #[trigger] idv[j],
                        #[trigger] views(markers@)[a],
                    ),
                forall|j: int| 0 <= j < k ==> !contains(#[trigger] idv[j], views(markers@)[m as int]),
            decreases ids.len() - k,
        {
            proof {
                assert(idv[k as int] == ids@[k as int]@);
                assert(views(markers@)[m as int] == markers@[m as int]@);
            }
            if contains_exec(ids[k].as_slice(), own.as_slice()) {
                proof {
                    assert(contains(idv[k as int], views(markers@)[m as int]));
                    assert(lowered_ids(ev, dv)[k as int] == idv[k as int]);
                }
                return true;
            }
            k = k + 1;
        }
        m = m + 1;
    }
    false
}

/// A property's value when it is not blank.
pub open spec fn present_value(o: Option<Seq<char>>) -> Option<Seq<char>> {
    match o {
        Some(s) => if trim(s).len() > 0 {
            Some(s)
        } else {
            None
        },
        None => None,
    }
}

/// The pid a stream reports: its process id property, trimmed and parsed,
/// or 0 when absent or not a number.
pub open spec fn stream_pid(o: Option<Seq<char>>) -> u32 {
    match o {
        Some(s) => match parse_u32_spec(trim(s)) {
            Some(p) => p,
            None => 0,
        },
        None => 0,
    }
}

fn non_blank(o: &Option<String>) -> (r: Option<String>)
    ensures
        opt_view(r) == present_value(opt_view(*o)),
{
    match o {
        Some(s) => {
            let t = trim_string(s.as_str());
            if t.as_str().unicode_len() > 0 {
                Some(s.as_str().to_owned())
            } else {
                None
            }
        },
        None => None,
    }
}

/// A stream's properties as the app the matcher tests: `None` when the
/// stream names no app (neither binary nor name, blanks counting as
/// absent) or when it is one of our own.
pub fn app_from_props(props: &StreamProps, exclude_pid: u32, markers: &[String]) -> (r: Option<
    AppId,
>)
    ensures
        ({
            let pid = stream_pid(opt_view(props.process_id));
            let exe = present_value(opt_view(props.process_binary));
            let name = present_value(opt_view(props.application_name));
            if exe is None && name is None {
                r is None
            } else if is_our_own_spec(pid, exclude_pid, exe, name, views(markers@)) {
                r is None
            } else {
                r matches Some(app) && app.pid == pid && opt_view(app.exe) == exe && app.bundle_id is None
                    && opt_view(app.display_name) == name
            }
        }),
{
    let pid: u32 = match &props.process_id {
        Some(s) => {
            let t = trim_string(s.as_str());
            match parse_u32(t.as_str()) {
                Some(p) => p,
                None => 0,
            }
        },
        None => 0,
    };
    let exe = non_blank(&props.process_binary);
    let display_name = non_blank(&props.application_name);
    if exe.is_none() && display_name.is_none() {
        return None;
    }
    let ours = is_our_own(
        pid,
        exclude_pid,
        match &exe {
            Some(e) => Some(e.as_str()),
            None => None,
        },
        match &display_name {
            Some(d) => Some(d.as_str()),
            None => None,
        },
        markers,
    );
    if ours {
        return None;
    }
    Some(AppId { pid, exe, bundle_id: None, display_name })
}

/// The row key of an app: its executable name and display name,
/// lowercased (an absent one as the empty string).
pub open spec fn row_key(app: AppId) -> (Seq<char>, Seq<char>) {
    (
        lowercase(match app.exe {
            Some(e) => e@,
            None => Seq::empty(),
        }),
        lowercase(match app.display_name {
            Some(d) => d@,
            None => Seq::empty(),
        }),
    )
}

/// The apps with one row per key, each row the first app of its key, in
/// order.
pub open spec fn deduped(apps: Seq<AppId>) -> Seq<AppId>
    decreases apps.len(),
{
    if apps.len() == 0 {
        Seq::empty()
    } else {
        let prev = deduped(apps.drop_last());
        if exists|k: int| 0 <= k < prev.len() && row_key(#[trigger] prev[k]) == row_key(apps.last()) {
            prev
        } else {
            prev.push(apps.last())
        }
    }
}

fn row_key_exec(app: &AppId) -> (k: (String, String))
    ensures
        (k.0@, k.1@) == row_key(*app),
{
    let a = match &app.exe {
        Some(e) => str_to_lowercase(e.as_str()),
        None => {
            proof {
                reveal_strlit("");
                assert(""@ =~= Seq::<char>::empty());
            }
            str_to_lowercase("")
        },
    };
    let b = match &app.display_name {
        Some(d) => str_to_lowercase(d.as_str()),
        None => {
            proof {
                reveal_strlit("");
                assert(""@ =~= Seq::<char>::empty());
            }
            str_to_lowercase("")
        },
    };
    (a, b)
}

/// One row per app: an app holding several streams (a browser opens one
/// per tab, each under a helper's pid) shows once, keyed on its identity
/// rather than its pid.
pub fn dedupe(apps: Vec<AppId>) -> (out: Vec<AppId>)
    ensures
        out@ == deduped(apps@),
{
    let ghost all = apps@;
    let total = apps.len();
    let mut out: Vec<AppId> = Vec::new();
    let mut keys: Vec<(String, String)> = Vec::new();
    let mut done: usize = 0;
    let mut rest = apps;
    proof {
        assert(all.take(0) =~= Seq::<AppId>::empty());
    }
    while rest.len() > 0
        invariant
            total == all.len(),
            done + rest@.len() == all.len(),
            rest@ == all.skip(done as int),
            out@ == deduped(all.take(done as int)),
            keys@.len() == out@.len(),
            forall|k: int| 0 <= k < keys@.len() ==> (keys@[k].0@, keys@[k].1@) == row_key(#[trigger] out@[k]),
        decreases rest.len(),
    {
        let app = rest.remove(0);
        proof {
            assert(app == all[done as int]);
            assert(rest@ =~= all.skip(done + 1));
        }
        let key = row_key_exec(&app);
        let mut seen = false;
        let mut k: usize = 0;
        while k < keys.len()
            invariant
                k <= keys@.len(),
                seen == exists|m: int| 0 <= m < k && keys@[m].0@ == key.0@ && keys@[m].1@ == key.1@,
            decreases keys.len() - k,
        {
            if keys[k].0 == key.0 && keys[k].1 == key.1 {
                seen = true;
            }
            k = k + 1;
        }
        let ghost prev = out@;
        proof {
            assert(all.take(done + 1).drop_last() =~= all.take(done as int));
            assert(all.take(done + 1).last() == app);
            if seen {
                let m = choose|m: int| 0 <= m < keys@.len() && keys@[m].0@ == key.0@ && keys@[m].1@ == key.1@;
                assert(row_key(prev[m]) == row_key(app));
            } else {
                assert forall|m: int| 0 <= m < prev.len() implies row_key(#[trigger] prev[m]) != row_key(app) by {
                    assert((keys@[m].0@, keys@[m].1@) == row_key(prev[m]));
                }
            }
        }
        if !seen {
            out.push(app);
            keys.push(key);
        }
        done = done + 1;
    }
    proof {
        assert(all.take(all.len() as int) =~= all);
    }
    out
}

/// What the scan knows of an app: its pid, executable name, bundle id and
/// display name.
pub open spec fn app_view(a: AppId) -> (u32, Option<Seq<char>>, Option<Seq<char>>, Option<Seq<char>>) {
    (a.pid, opt_view(a.exe), opt_view(a.bundle_id), opt_view(a.display_name))
}

/// The app a stream stands for, if any, as `app_from_props` builds it.
pub open spec fn stream_app(props: StreamProps, exclude_pid: u32, markers: Seq<Seq<char>>) -> Option<
    (u32, Option<Seq<char>>, Option<Seq<char>>, Option<Seq<char>>),
> {
    let pid = stream_pid(opt_view(props.process_id));
    let exe = present_value(opt_view(props.process_binary));
    let name = present_value(opt_view(props.application_name));
    if exe is None && name is None {
        None
    } else if is_our_own_spec(pid, exclude_pid, exe, name, markers) {
        None
    } else {
        Some((pid, exe, None, name))
    }
}

/// The apps a list of streams stands for, in stream order.
pub open spec fn stream_apps(streams: Seq<StreamProps>, exclude_pid: u32, markers: Seq<Seq<char>>) -> Seq<
    (u32, Option<Seq<char>>, Option<Seq<char>>, Option<Seq<char>>),
>
    decreases streams.len(),
{
    if streams.len() == 0 {
        Seq::empty()
    } else {
        let prev = stream_apps(streams.drop_last(), exclude_pid, markers);
        match stream_app(streams.last(), exclude_pid, markers) {
            Some(v) => prev.push(v),
            None => prev,
        }
    }
}

/// The row key of a viewed app.
pub open spec fn view_key(v: (u32, Option<Seq<char>>, Option<Seq<char>>, Option<Seq<char>>)) -> (
    Seq<char>,
    Seq<char>,
) {
    (
        lowercase(match v.1 {
            Some(e) => e,
            None => Seq::empty(),
        }),
        lowercase(match v.3 {
            Some(d) => d,
            None => Seq::empty(),
        }),
    )
}

/// `deduped` over viewed apps.
pub open spec fn deduped_views(
    apps: Seq<(u32, Option<Seq<char>>, Option<Seq<char>>, Option<Seq<char>>)>,
) -> Seq<(u32, Option<Seq<char>>, Option<Seq<char>>, Option<Seq<char>>)>
    decreases apps.len(),
{
    if apps.len() == 0 {
        Seq::empty()
    } else {
        let prev = deduped_views(apps.drop_last());
        if exists|k: int| 0 <= k < prev.len() && view_key(#[trigger] prev[k]) == view_key(apps.last()) {
            prev
        } else {
            prev.push(apps.last())
        }
    }
}

proof fn lemma_deduped_views(apps: Seq<AppId>)
    ensures
        deduped(apps).map_values(|a: AppId| app_view(a)) == deduped_views(
            apps.map_values(|a: AppId| app_view(a)),
        ),
    decreases apps.len(),
{
    if apps.len() > 0 {
        lemma_deduped_views(apps.drop_last());
        let prev = deduped(apps.drop_last());
        let pv = prev.map_values(|a: AppId| app_view(a));
        let av = apps.map_values(|a: AppId| app_view(a));
        assert(apps.drop_last().map_values(|a: AppId| app_view(a)) =~= av.drop_last());
        assert(av.last() == app_view(apps.last()));
        assert(row_key(apps.last()) == view_key(av.last()));
        assert forall|k: int| 0 <= k < prev.len() implies row_key(#[trigger] prev[k]) == view_key(pv[k]) by {
            assert(pv[k] == app_view(prev[k]));
        }
        if exists|k: int| 0 <= k < prev.len() && row_key(#[trigger] prev[k]) == row_key(apps.last()) {
            let k = choose|k: int| 0 <= k < prev.len() && row_key(#[trigger] prev[k]) == row_key(apps.last());
            assert(view_key(pv[k]) == view_key(av.last()));
        } else {
            assert forall|k: int| 0 <= k < pv.len() implies view_key(#[trigger] pv[k]) != view_key(av.last()) by {
                assert(row_key(prev[k]) == view_key(pv[k]));
            }
            assert(prev.push(apps.last()).map_values(|a: AppId| app_view(a)) =~= pv.push(av.last()));
        }
    }
}

/// The apps behind a list of stream property sets: one row per app, our
/// own streams and identity-less ones left out.
pub fn apps_from_streams(streams: &[StreamProps], exclude_pid: u32, markers: &[String]) -> (out: Vec<AppId>)
    ensures
        out@.map_values(|a: AppId| app_view(a)) == deduped_views(
            stream_apps(streams@, exclude_pid, views(markers@)),
        ),
{
    let mut found: Vec<AppId> = Vec::new();
    let mut i: usize = 0;
    while i < streams.len()
        invariant
            i <= streams@.len(),
            found@.map_values(|a: AppId| app_view(a)) == stream_apps(
                streams@.take(i as int),
                exclude_pid,
                views(markers@),
            ),
        decreases streams.len() - i,
    {
        let r = app_from_props(&streams[i], exclude_pid, markers);
        proof {
            assert(streams@.take(i + 1).drop_last() =~= streams@.take(i as int));
            assert(streams@.take(i + 1).last() == streams@[i as int]);
        }
        match r {
            Some(app) => {
                found.push(app);
                proof {
                    assert(found@.map_values(|a: AppId| app_view(a)) =~= stream_apps(
                        streams@.take(i as int),
                        exclude_pid,
                        views(markers@),
                    ).push(app_view(found@.last())));
                }
            },
            None => {},
        }
        i = i + 1;
    }
    proof {
        assert(streams@.take(streams@.len() as int) =~= streams@);
        lemma_deduped_views(found@);
    }
    dedupe(found)
}

/// The names our own streams can be recognised by, lowercased: the
/// package name, and the running executable's file name when it differs
/// (a renamed binary), blanks dropped.
pub open spec fn own_markers_spec(package_name: Seq<char>, exe_file_name: Option<Seq<char>>) -> Seq<
    Seq<char>,
> {
    let a = lowercase(package_name);
    let base = if a.len() > 0 {
        seq![a]
    } else {
        Seq::empty()
    };
    match exe_file_name {
        Some(e) => {
            let l = lowercase(e);
            if l.len() > 0 && l != a {
                base.push(l)
            } else {
                base
            }
        },
        None => base,
    }
}

/// Our own names, from the package name and the running executable's file
/// name (when it could be read).
pub fn own_markers(package_name: &str, exe_file_name: Option<&str>) -> (r: Vec<String>)
    ensures
        views(r@) == own_markers_spec(package_name@, match exe_file_name {
            Some(e) => Some(e@),
            None => None,
        }),
{
    let a = str_to_lowercase(package_name);
    let mut out: Vec<String> = Vec::new();
    let a_blank = a.as_str().unicode_len() == 0;
    if !a_blank {
        out.push(a.as_str().to_owned());
    }
    match exe_file_name {
        Some(e) => {
            let l = str_to_lowercase(e);
            if l.as_str().unicode_len() > 0 && l.as_str().to_owned() != a.as_str().to_owned() {
                out.push(l);
            }
        },
        None => {},
    }
    proof {
        assert(views(out@) =~= own_markers_spec(package_name@, match exe_file_name {
            Some(e) => Some(e@),
            None => None,
        }));
    }
    out
}

/// One row per app: no two rows of `deduped` share a key, and every app's
/// key has a row.
pub proof fn lemma_one_row_per_app(apps: Seq<AppId>)
    ensures
        forall|i: int, j: int|
            0 <= i < j < deduped(apps).len() ==> row_key(#[trigger] deduped(apps)[i]) != row_key(
                #[trigger] deduped(apps)[j],
            ),
        forall|a: int|
            0 <= a < apps.len() ==> exists|k: int|
                0 <= k < deduped(apps).len() && row_key(#[trigger] deduped(apps)[k]) == row_key(
                    #[trigger] apps[a],
                ),
    decreases apps.len(),
{
    if apps.len() > 0 {
        let init = apps.drop_last();
        lemma_one_row_per_app(init);
        let prev = deduped(init);
        let out = deduped(apps);
        assert forall|a: int| 0 <= a < apps.len() implies exists|k: int|
            0 <= k < out.len() && row_key(#[trigger] out[k]) == row_key(#[trigger] apps[a]) by {
            if a < apps.len() - 1 {
                assert(apps[a] == init[a]);
                let k = choose|k: int| 0 <= k < prev.len() && row_key(#[trigger] prev[k]) == row_key(init[a]);
                assert(out[k] == prev[k]);
            } else {
                if exists|k: int| 0 <= k < prev.len() && row_key(#[trigger] prev[k]) == row_key(apps.last()) {
                    let k = choose|k: int| 0 <= k < prev.len() && row_key(#[trigger] prev[k]) == row_key(apps.last());
                    assert(out[k] == prev[k]);
                } else {
                    assert(out[prev.len() as int] == apps.last());
                }
            }
        }
    }
}


// --- The default sink's monitor ---

/// What the scan reads of a sink: its name, its monitor source and its
/// description, each when the server sets it, and its native geometry.
pub struct SinkInfo {
    pub name: Option<String>,
    pub monitor_source_name: Option<String>,
    pub description: Option<String>,
    pub channels: u8,
    pub rate: u32,
}

/// A monitor target as plain values: source name, sink description,
/// channels, rate.
pub open spec fn target_view(t: MonitorTarget) -> (Seq<char>, Seq<char>, u8, u32) {
    (t.source_name@, t.sink_description@, t.channels, t.rate)
}

/// The monitor of the last sink in `sinks` named `default_sink` that has
/// one, described by the sink's description or, without one, its name.
pub open spec fn monitor_of(default_sink: Seq<char>, sinks: Seq<SinkInfo>) -> Option<
    (Seq<char>, Seq<char>, u8, u32),
>
    decreases sinks.len(),
{
    if sinks.len() == 0 {
        None
    } else {
        let s = sinks.last();
        if opt_view(s.name) == Some(default_sink) && s.monitor_source_name is Some {
            Some(
                (
                    s.monitor_source_name.unwrap()@,
                    match s.description {
                        Some(d) => d@,
                        None => default_sink,
                    },
                    s.channels,
                    s.rate,
                ),
            )
        } else {
            monitor_of(default_sink, sinks.drop_last())
        }
    }
}

/// What system-audio capture records: the monitor source of the server's
/// default sink, with the sink's native channel count and rate. `None`
/// when the server names no default sink or that sink has no monitor.
/// The monitor comes from the sink's own `monitor_source_name`, never
/// built from the sink's name by hand.
pub fn monitor_target(default_sink: Option<&str>, sinks: &[SinkInfo]) -> (r: Option<MonitorTarget>)
    ensures
        match r {
            Some(t) => default_sink matches Some(d) && monitor_of(d@, sinks@) == Some(target_view(t)),
            None => default_sink matches Some(d) ==> monitor_of(d@, sinks@) is None,
        },
{
    let wanted = match default_sink {
        Some(d) => d,
        None => return None,
    };
    let mut found: Option<MonitorTarget> = None;
    let mut i: usize = 0;
    while i < sinks.len()
        invariant
            i <= sinks@.len(),
            match found {
                Some(t) => monitor_of(wanted@, sinks@.take(i as int)) == Some(target_view(t)),
                None => monitor_of(wanted@, sinks@.take(i as int)) is None,
            },
        decreases sinks.len() - i,
    {
        let s = &sinks[i];
        proof {
            assert(sinks@.take(i as int + 1).drop_last() =~= sinks@.take(i as int));
            assert(sinks@.take(i as int + 1).last() == sinks@[i as int]);
        }
        let named = match &s.name {
            Some(n) => same_text(n.as_str(), wanted),
            None => false,
        };
        if named {
            match &s.monitor_source_name {
                Some(monitor) => {
                    let description = match &s.description {
                        Some(d) => d.clone(),
                        None => wanted.to_owned(),
                    };
                    found = Some(
                        MonitorTarget {
                            source_name: monitor.clone(),
                            sink_description: description,
                            channels: s.channels,
                            rate: s.rate,
                        },
                    );
                },
                None => {},
            }
        }
        i = i + 1;
    }
    proof {
        assert(sinks@.take(sinks@.len() as int) =~= sinks@);
    }
    found
}

} // verus!
