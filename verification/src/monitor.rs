//! The alert that the monitor sends when GPUs are underutilized.
use vstd::prelude::*;
use crate::task_manager::string_views;
use crate::text::{decimal, push_decimal, push_string};
use crate::host::{shown_host, system_host_name, HostName};

verus! {

/// An alert to send.
pub struct AlertInfo {
    pub message: String,
    /// The host-name lookup whose result the message names, where the
    /// alert was built from one.
    pub host: Option<HostName>,
}

/// One GPU as the alert sees it: which GPU, and the reasons (already
/// worded) why it is underutilized; none when it is fine.
pub struct GpuAlert {
    pub index: u32,
    pub name: String,
    pub reasons: Vec<String>,
}

/// `parts` joined with `sep` between them.
pub open spec fn join(parts: Seq<Seq<char>>, sep: Seq<char>) -> Seq<char>
    decreases parts.len(),
{
    if parts.len() == 0 {
        Seq::empty()
    } else if parts.len() == 1 {
        parts[0]
    } else {
        join(parts.drop_last(), sep) + sep + parts.last()
    }
}

/// Appends `parts` joined with `sep` to `out`.
pub fn push_joined(out: &mut String, parts: &Vec<String>, sep: &str)
    ensures
        final(out)@ == old(out)@ + join(string_views(parts@), sep@),
{
    let ghost views = string_views(parts@);
    let mut i: usize = 0;
    while i < parts.len()
        invariant
            i <= parts@.len(),
            views == string_views(parts@),
            out@ == old(out)@ + join(views.take(i as int), sep@),
        decreases parts@.len() - i,
    {
        let ghost before = out@;
        if i > 0 {
            out.append(sep);
        }
        push_string(out, &parts[i]);
        proof {
            assert(views.take(i + 1).drop_last() =~= views.take(i as int));
            assert(views[i as int] == parts@[i as int]@);
            if i == 0 {
                assert(join(views.take(0), sep@) =~= Seq::<char>::empty());
                assert(out@ =~= old(out)@ + join(views.take(1), sep@));
            } else {
                assert(out@ =~= old(out)@ + join(views.take(i + 1), sep@));
            }
        }
        i = i + 1;
    }
    assert(views.take(i as int) =~= views);
}

/// The block of the alert for one GPU.
pub open spec fn gpu_alert_text(index: u32, name: Seq<char>, reasons: Seq<Seq<char>>) -> Seq<
    char,
> {
    "⚠️ <b>GPU "@ + decimal(index as nat) + " ("@ + name + ")</b>\n"@ + join(reasons, "\n"@)
}

/// The blocks of the GPUs that have reasons, in order.
pub open spec fn alert_blocks(gpus: Seq<GpuAlert>) -> Seq<Seq<char>>
    decreases gpus.len(),
{
    if gpus.len() == 0 {
        Seq::empty()
    } else {
        alert_blocks(gpus.drop_last()) + if gpus.last().reasons@.len() > 0 {
            seq![
                gpu_alert_text(
                    gpus.last().index,
                    gpus.last().name@,
                    string_views(gpus.last().reasons@),
                ),
            ]
        } else {
            Seq::empty()
        }
    }
}

/// The alert message: a heading naming the host, the block of each GPU
/// that has reasons, and a summary line per GPU.
pub open spec fn alert_text(host: Seq<char>, blocks: Seq<Seq<char>>, summary: Seq<Seq<char>>) -> Seq<
    char,
> {
    "🖥️ <b>GPU Guard Alert</b> ("@ + host + ")\n\n"@ + join(blocks, "\n\n"@) + "\n\n"@ + join(
        summary,
        "\n"@,
    )
}

fn alert_blocks_exec(gpus: &Vec<GpuAlert>) -> (r: Vec<String>)
    ensures
        string_views(r@) == alert_blocks(gpus@),
{
    let mut r: Vec<String> = Vec::new();
    let mut i: usize = 0;
    while i < gpus.len()
        invariant
            i <= gpus@.len(),
            string_views(r@) == alert_blocks(gpus@.take(i as int)),
        decreases gpus@.len() - i,
    {
        let g = &gpus[i];
        let ghost before = string_views(r@);
        assert(gpus@.take(i + 1).drop_last() =~= gpus@.take(i as int));
        assert(gpus@.take(i + 1).last() == gpus@[i as int]);
        if g.reasons.len() > 0 {
            let mut s = String::from_str("⚠️ <b>GPU ");
            push_decimal(&mut s, g.index as u64);
            s.append(" (");
            push_string(&mut s, &g.name);
            s.append(")</b>\n");
            push_joined(&mut s, &g.reasons, "\n");
            r.push(s);
            assert(string_views(r@) =~= before.push(
                gpu_alert_text(g.index, g.name@, string_views(g.reasons@)),
            ));
            assert(string_views(r@) =~= alert_blocks(gpus@.take(i + 1)));
        } else {
            assert(before + Seq::<Seq<char>>::empty() =~= before);
        }
        i = i + 1;
    }
    assert(gpus@.take(i as int) =~= gpus@);
    r
}

fn assemble_alert(host: &str, blocks: &Vec<String>, summary: &Vec<String>) -> (a: AlertInfo)
    ensures
        a.message@ == alert_text(host@, string_views(blocks@), string_views(summary@)),
{
    let mut msg = String::from_str("🖥️ <b>GPU Guard Alert</b> (");
    msg.append(host);
    msg.append(")\n\n");
    push_joined(&mut msg, blocks, "\n\n");
    msg.append("\n\n");
    push_joined(&mut msg, summary, "\n");
    AlertInfo { message: msg, host: None }
}

/// The alert for these GPUs on host `host`, or none where no GPU has a
/// reason; `summary` holds one line per GPU.
pub fn build_alert_with_host(gpus: &Vec<GpuAlert>, host: &str, summary: &Vec<String>) -> (r:
    Option<AlertInfo>)
    ensures
        alert_blocks(gpus@).len() == 0 ==> r is None,
        alert_blocks(gpus@).len() > 0 ==> (r matches Some(a) && a.message@ == alert_text(
            host@,
            alert_blocks(gpus@),
            string_views(summary@),
        )),
{
    let blocks = alert_blocks_exec(gpus);
    if blocks.len() == 0 {
        return None;
    }
    Some(assemble_alert(host, &blocks, summary))
}

/// The host name shown in alerts: the one found, or `unknown`.
pub fn host_or_unknown(found: Option<String>) -> (s: String)
    ensures
        s@ == match found {
            Some(h) => h@,
            None => "unknown"@,
        },
{
    match found {
        Some(h) => h,
        None => String::from_str("unknown"),
    }
}

/// The alert for these GPUs, naming this machine, or none where no GPU has
/// a reason; the host name is looked up only when there is an alert. The
/// alert carries that lookup, and its heading names the host the lookup
/// found (`unknown` only where the lookup failed).
pub fn build_alert(gpus: &Vec<GpuAlert>, summary: &Vec<String>) -> (r: Option<AlertInfo>)
    ensures
        alert_blocks(gpus@).len() == 0 ==> r is None,
        alert_blocks(gpus@).len() > 0 ==> (r matches Some(a) && exists|host: Seq<char>|
            a.message@ == alert_text(host, alert_blocks(gpus@), string_views(summary@))),
        alert_blocks(gpus@).len() > 0 ==> (r matches Some(a) && (a.host matches Some(h)
            && a.message@ == alert_text(
            shown_host(h.found()),
            alert_blocks(gpus@),
            string_views(summary@),
        ))),
{
    let blocks = alert_blocks_exec(gpus);
    if blocks.len() == 0 {
        return None;
    }
    let host = system_host_name();
    let shown = host.shown();
    let mut a = assemble_alert(shown.as_str(), &blocks, summary);
    a.host = Some(host);
    Some(a)
}

/// There is an alert exactly when some GPU has a reason to be reported, and
/// then one block per such GPU.
pub proof fn lemma_alert_iff_some_reason(gpus: Seq<GpuAlert>)
    ensures
        (alert_blocks(gpus).len() == 0) <==> (forall|i: int|
            0 <= i < gpus.len() ==> (#[trigger] gpus[i]).reasons@.len() == 0),
        alert_blocks(gpus).len() <= gpus.len(),
    decreases gpus.len(),
{
    if gpus.len() > 0 {
        let prev = gpus.drop_last();
        lemma_alert_iff_some_reason(prev);
        if alert_blocks(gpus).len() == 0 {
            assert forall|i: int| 0 <= i < gpus.len() implies (#[trigger] gpus[i]).reasons@.len()
                == 0 by {
                if i < gpus.len() - 1 {
                    assert(gpus[i] == prev[i]);
                }
            }
        }
        if forall|i: int| 0 <= i < gpus.len() ==> (#[trigger] gpus[i]).reasons@.len() == 0 {
            assert forall|i: int| 0 <= i < prev.len() implies (#[trigger] prev[i]).reasons@.len()
                == 0 by {
                assert(prev[i] == gpus[i]);
            }
            assert(gpus[gpus.len() - 1].reasons@.len() == 0);
        }
    }
}

/// An alert's heading names the host that the lookup found: the message
/// starts with the heading, then that name (`unknown` only where the lookup
/// failed), then `)`.
pub proof fn lemma_alert_heading_names_host(
    found: Option<Seq<char>>,
    blocks: Seq<Seq<char>>,
    summary: Seq<Seq<char>>,
)
    ensures
        found matches Some(h) ==> alert_text(shown_host(found), blocks, summary).subrange(
            0,
            "🖥️ <b>GPU Guard Alert</b> ("@.len() + h.len() + 1int,
        ) == "🖥️ <b>GPU Guard Alert</b> ("@ + h + ")"@.take(1),
        found is None ==> alert_text(shown_host(found), blocks, summary).subrange(
            0,
            "🖥️ <b>GPU Guard Alert</b> ("@.len() + 8int,
        ) == "🖥️ <b>GPU Guard Alert</b> ("@ + "unknown)"@,
{
    reveal_strlit(")\n\n");
    reveal_strlit(")");
    reveal_strlit("unknown)");
    reveal_strlit("unknown");
    let p = "🖥️ <b>GPU Guard Alert</b> ("@;
    let host = shown_host(found);
    let m = alert_text(host, blocks, summary);
    let rest = ")\n\n"@ + join(blocks, "\n\n"@) + "\n\n"@ + join(summary, "\n"@);
    assert(m =~= p + host + rest);
    assert(rest[0] == ')');
    assert(m.subrange(0, p.len() + host.len() + 1int) =~= p + host + seq![')']);
    assert(")"@.take(1) =~= seq![')']);
    assert("unknown"@ + seq![')'] =~= "unknown)"@);
    assert(p + "unknown"@ + seq![')'] =~= p + "unknown)"@);
}

} // verus!
