//! Help text generated from a site configuration: module and command
//! listings and the usage of a single command.

use vstd::prelude::*;
use crate::config::{
    EndpointConfig, EndpointModel, ModuleModel, ParamConfig, ParamModel, SiteConfig, SiteModel,
    endpoint_of,
};
use crate::ordmap::{OrdMap, lookup};
use crate::text::{
    append_chars, chars_of, decimal, decimal_v, pad_right, pad_right_v, push_str, string_of, to_upper,
    unicode_upper,
};

verus! {

pub open spec fn or_empty(s: Option<Seq<char>>) -> Seq<char> {
    match s {
        Some(x) => x,
        None => Seq::empty(),
    }
}

/// `  name method path summary` with the first three padded to 30, 6 and
/// 40 characters.
pub open spec fn command_line(name: Seq<char>, ep: EndpointModel) -> Seq<char> {
    "  "@ + pad_right(name, 30) + " "@ + pad_right(unicode_upper(ep.method), 6) + " "@ + pad_right(
        ep.path,
        40,
    ) + " "@ + or_empty(ep.summary) + "\n"@
}

pub open spec fn command_lines(cmds: Seq<(Seq<char>, EndpointModel)>) -> Seq<char>
    decreases cmds.len(),
{
    if cmds.len() == 0 {
        Seq::empty()
    } else {
        command_lines(cmds.drop_last()) + command_line(cmds.last().0, cmds.last().1)
    }
}

pub open spec fn module_line(name: Seq<char>, m: ModuleModel) -> Seq<char> {
    "  "@ + pad_right(name, 25) + " "@ + decimal(m.commands.len()) + " commands\n"@
}

pub open spec fn module_lines(mods: Seq<(Seq<char>, ModuleModel)>) -> Seq<char>
    decreases mods.len(),
{
    if mods.len() == 0 {
        Seq::empty()
    } else {
        module_lines(mods.drop_last()) + module_line(mods.last().0, mods.last().1)
    }
}

/// The module listing: a heading, then one line per module, in name order,
/// with its number of commands.
pub open spec fn modules_listing(cfg: SiteModel) -> Seq<char> {
    "Available modules:\n\n"@ + module_lines(cfg.modules)
}

/// The help of a module: its commands in name order, or, for an unknown
/// module, a notice followed by the module listing.
pub open spec fn module_help(cfg: SiteModel, module: Seq<char>) -> Seq<char> {
    match lookup(cfg.modules, module) {
        None => "Unknown module: '"@ + module + "'\n\nAvailable modules: "@ + modules_listing(cfg),
        Some(m) => "Module: "@ + module + "\n\nCommands:\n"@ + command_lines(m.commands),
    }
}

pub open spec fn listed_line(module: Seq<char>, name: Seq<char>, ep: EndpointModel) -> Seq<char> {
    "  "@ + module + " "@ + pad_right(name, 25) + " "@ + pad_right(unicode_upper(ep.method), 6)
        + " "@ + pad_right(ep.path, 40) + " "@ + or_empty(ep.summary) + "\n"@
}

pub open spec fn listed_lines(module: Seq<char>, cmds: Seq<(Seq<char>, EndpointModel)>) -> Seq<char>
    decreases cmds.len(),
{
    if cmds.len() == 0 {
        Seq::empty()
    } else {
        listed_lines(module, cmds.drop_last()) + listed_line(module, cmds.last().0, cmds.last().1)
    }
}

pub open spec fn all_lines(mods: Seq<(Seq<char>, ModuleModel)>) -> Seq<char>
    decreases mods.len(),
{
    if mods.len() == 0 {
        Seq::empty()
    } else {
        all_lines(mods.drop_last()) + listed_lines(mods.last().0, mods.last().1.commands)
    }
}

/// Every command of every module, modules and commands in name order.
pub open spec fn all_commands(cfg: SiteModel) -> Seq<char> {
    "Available commands:\n\n"@ + all_lines(cfg.modules)
}

/// Every (module, command, endpoint) triple, modules in order and the
/// commands of each in order.
pub open spec fn command_triples(mods: Seq<(Seq<char>, ModuleModel)>) -> Seq<(Seq<char>, Seq<char>, EndpointModel)>
    decreases mods.len(),
{
    if mods.len() == 0 {
        Seq::empty()
    } else {
        command_triples(mods.drop_last()) + triples_of(mods.last().0, mods.last().1.commands)
    }
}

pub open spec fn triples_of(module: Seq<char>, cmds: Seq<(Seq<char>, EndpointModel)>) -> Seq<(Seq<char>, Seq<char>, EndpointModel)> {
    cmds.map_values(|c: (Seq<char>, EndpointModel)| (module, c.0, c.1))
}

/// One listing line per triple, in order, concatenated.
pub open spec fn lines_of(ts: Seq<(Seq<char>, Seq<char>, EndpointModel)>) -> Seq<char>
    decreases ts.len(),
{
    if ts.len() == 0 {
        Seq::empty()
    } else {
        lines_of(ts.drop_last()) + listed_line(ts.last().0, ts.last().1, ts.last().2)
    }
}

proof fn lemma_lines_of_concat(a: Seq<(Seq<char>, Seq<char>, EndpointModel)>, b: Seq<(Seq<char>, Seq<char>, EndpointModel)>)
    ensures
        lines_of(a + b) == lines_of(a) + lines_of(b),
    decreases b.len(),
{
    if b.len() == 0 {
        assert(a + b =~= a);
        assert(lines_of(a) + lines_of(b) =~= lines_of(a));
    } else {
        lemma_lines_of_concat(a, b.drop_last());
        assert((a + b).drop_last() =~= a + b.drop_last());
        assert((a + b).last() == b.last());
        assert(lines_of(a + b) =~= lines_of(a) + lines_of(b));
    }
}

proof fn lemma_listed_lines(module: Seq<char>, cmds: Seq<(Seq<char>, EndpointModel)>)
    ensures
        listed_lines(module, cmds) == lines_of(triples_of(module, cmds)),
    decreases cmds.len(),
{
    if cmds.len() > 0 {
        lemma_listed_lines(module, cmds.drop_last());
        assert(triples_of(module, cmds).drop_last() =~= triples_of(module, cmds.drop_last()));
        assert(triples_of(module, cmds).last() == (module, cmds.last().0, cmds.last().1));
    } else {
        assert(triples_of(module, cmds) =~= Seq::<(Seq<char>, Seq<char>, EndpointModel)>::empty());
    }
}

/// The full command listing is its heading followed by exactly one line per
/// (module, command) pair, modules in order and each module's commands in
/// order; each line shows the module, the command, the uppercased method
/// and the path (`listed_line`).
pub proof fn law_command_listing_layout(cfg: SiteModel)
    ensures
        all_commands(cfg) == "Available commands:\n\n"@ + lines_of(command_triples(cfg.modules)),
        command_triples(cfg.modules).len() == crate::config::total_from(cfg.modules),
{
    lemma_all_lines(cfg.modules);
}

proof fn lemma_all_lines(mods: Seq<(Seq<char>, ModuleModel)>)
    ensures
        all_lines(mods) == lines_of(command_triples(mods)),
        command_triples(mods).len() == crate::config::total_from(mods),
    decreases mods.len(),
{
    if mods.len() > 0 {
        let d = mods.drop_last();
        lemma_all_lines(d);
        lemma_listed_lines(mods.last().0, mods.last().1.commands);
        lemma_lines_of_concat(command_triples(d), triples_of(mods.last().0, mods.last().1.commands));
    }
}

/// ` --name <NAME>` for a required parameter, ` [--name <NAME>]` otherwise.
pub open spec fn usage_part(name: Seq<char>, required: bool) -> Seq<char> {
    if required {
        " --"@ + name + " <"@ + unicode_upper(name) + ">"@
    } else {
        " [--"@ + name + " <"@ + unicode_upper(name) + ">]"@
    }
}

/// The usage parts of the parameters whose `required` flag is `required`.
pub open spec fn usage(ps: Seq<(Seq<char>, ParamModel)>, required: bool) -> Seq<char>
    decreases ps.len(),
{
    if ps.len() == 0 {
        Seq::empty()
    } else if ps.last().1.required == required {
        usage(ps.drop_last(), required) + usage_part(ps.last().0, required)
    } else {
        usage(ps.drop_last(), required)
    }
}

pub open spec fn default_part(d: Option<Seq<char>>) -> Seq<char> {
    match d {
        Some(x) => " (default: "@ + x + ")"@,
        None => Seq::empty(),
    }
}

/// `  --name description` (name padded to 20), with the default of an
/// optional parameter.
pub open spec fn detail_line(name: Seq<char>, p: ParamModel) -> Seq<char> {
    "  --"@ + pad_right(name, 20) + " "@ + or_empty(p.description) + (if p.required {
        Seq::empty()
    } else {
        default_part(p.default)
    }) + "\n"@
}

pub open spec fn details(ps: Seq<(Seq<char>, ParamModel)>, required: bool) -> Seq<char>
    decreases ps.len(),
{
    if ps.len() == 0 {
        Seq::empty()
    } else if ps.last().1.required == required {
        details(ps.drop_last(), required) + detail_line(ps.last().0, ps.last().1)
    } else {
        details(ps.drop_last(), required)
    }
}

pub open spec fn has_kind(ps: Seq<(Seq<char>, ParamModel)>, required: bool) -> bool {
    exists|i: int| 0 <= i < ps.len() && #[trigger] ps[i].1.required == required
}

pub open spec fn section(has: bool, heading: Seq<char>, body: Seq<char>) -> Seq<char> {
    if has {
        heading + body
    } else {
        Seq::empty()
    }
}

/// The help of one command: method and path, summary, a usage line listing
/// required then optional parameters, then a section for each kind; for an
/// unknown command, a notice followed by the module's help.
pub open spec fn command_help(cfg: SiteModel, module: Seq<char>, command: Seq<char>) -> Seq<char> {
    match endpoint_of(cfg, module, command) {
        None => "Unknown command: "@ + module + " "@ + command + "\n\n"@ + module_help(cfg, module),
        Some(ep) => "API: "@ + unicode_upper(ep.method) + " "@ + ep.path + "\n"@ + (match ep.summary {
            Some(s) => s + "\n"@,
            None => Seq::empty(),
        }) + "\n"@ + "Usage: restie "@ + module + " "@ + command + usage(ep.params, true) + usage(
            ep.params,
            false,
        ) + "\n"@ + section(has_kind(ep.params, true), "\nRequired:\n"@, details(ep.params, true))
            + section(has_kind(ep.params, false), "\nOptional:\n"@, details(ep.params, false)),
    }
}

/// Help for an unknown command names it and shows its module's help; help
/// for a known one starts with the method and path it calls, and its usage
/// line lists every required parameter before any optional one.
pub proof fn law_command_help_layout(cfg: SiteModel, module: Seq<char>, command: Seq<char>)
    ensures
        endpoint_of(cfg, module, command) is None ==> command_help(cfg, module, command)
            == "Unknown command: "@ + module + " "@ + command + "\n\n"@ + module_help(cfg, module),
        endpoint_of(cfg, module, command) matches Some(ep) ==> {
            let head = "API: "@ + unicode_upper(ep.method) + " "@ + ep.path + "\n"@;
            let usage_line = "Usage: restie "@ + module + " "@ + command + usage(ep.params, true)
                + usage(ep.params, false) + "\n"@;
            &&& command_help(cfg, module, command).take(head.len() as int) == head
            &&& crate::text::spec_contains(command_help(cfg, module, command), usage_line)
        },
{
    if let Some(ep) = endpoint_of(cfg, module, command) {
        let head = "API: "@ + unicode_upper(ep.method) + " "@ + ep.path + "\n"@;
        let mid = (match ep.summary {
            Some(s) => s + "\n"@,
            None => Seq::empty(),
        }) + "\n"@;
        let usage_line = "Usage: restie "@ + module + " "@ + command + usage(ep.params, true)
            + usage(ep.params, false) + "\n"@;
        let tail = section(has_kind(ep.params, true), "\nRequired:\n"@, details(ep.params, true))
            + section(has_kind(ep.params, false), "\nOptional:\n"@, details(ep.params, false));
        let h = command_help(cfg, module, command);
        assert(h =~= head + mid + usage_line + tail);
        assert(h.take(head.len() as int) =~= head);
        let at: int = (head.len() + mid.len()) as int;
        assert(h.subrange(at, at + usage_line.len()) =~= usage_line);
        assert(crate::text::occurs_at(h, usage_line, at));
    }
}

fn append_opt(out: &mut Vec<char>, s: &Option<String>)
    ensures
        final(out)@ == old(out)@ + or_empty(s.deep_view()),
{
    match s {
        Some(x) => push_str(out, x.as_str()),
        None => {
            assert(old(out)@ =~= old(out)@ + Seq::<char>::empty());
        },
    }
}

fn append_padded(out: &mut Vec<char>, s: &str, w: usize)
    ensures
        final(out)@ == old(out)@ + pad_right(s@, w as nat),
{
    let v = chars_of(s);
    pad_right_v(out, &v, w);
}

fn append_command_line(out: &mut Vec<char>, name: &String, ep: &EndpointConfig)
    ensures
        final(out)@ == old(out)@ + command_line(name@, ep.deep_view()),
{
    let ghost pre = out@;
    push_str(out, "  ");
    append_padded(out, name.as_str(), 30);
    push_str(out, " ");
    let m = to_upper(ep.method.as_str());
    append_padded(out, m.as_str(), 6);
    push_str(out, " ");
    append_padded(out, ep.path.as_str(), 40);
    push_str(out, " ");
    append_opt(out, &ep.summary);
    push_str(out, "\n");
    assert(out@ =~= pre + command_line(name@, ep.deep_view()));
}

fn append_listed_line(out: &mut Vec<char>, module: &String, name: &String, ep: &EndpointConfig)
    ensures
        final(out)@ == old(out)@ + listed_line(module@, name@, ep.deep_view()),
{
    let ghost pre = out@;
    push_str(out, "  ");
    push_str(out, module.as_str());
    push_str(out, " ");
    append_padded(out, name.as_str(), 25);
    push_str(out, " ");
    let m = to_upper(ep.method.as_str());
    append_padded(out, m.as_str(), 6);
    push_str(out, " ");
    append_padded(out, ep.path.as_str(), 40);
    push_str(out, " ");
    append_opt(out, &ep.summary);
    push_str(out, "\n");
    assert(out@ =~= pre + listed_line(module@, name@, ep.deep_view()));
}

fn append_command_lines(out: &mut Vec<char>, cmds: &OrdMap<EndpointConfig>)
    ensures
        final(out)@ == old(out)@ + command_lines(cmds@),
{
    let ghost pre = out@;
    let n = cmds.len();
    let mut i: usize = 0;
    while i < n
        invariant
            n == cmds@.len(),
            i <= n,
            out@ == pre + command_lines(cmds@.take(i as int)),
        decreases n - i,
    {
        assert(cmds@.take(i + 1).drop_last() =~= cmds@.take(i as int));
        append_command_line(out, cmds.key_at(i), cmds.value_at(i));
        assert(out@ =~= pre + command_lines(cmds@.take(i + 1)));
        i = i + 1;
    }
    assert(cmds@.take(n as int) =~= cmds@);
}

fn append_listed_lines(out: &mut Vec<char>, module: &String, cmds: &OrdMap<EndpointConfig>)
    ensures
        final(out)@ == old(out)@ + listed_lines(module@, cmds@),
{
    let ghost pre = out@;
    let n = cmds.len();
    let mut i: usize = 0;
    while i < n
        invariant
            n == cmds@.len(),
            i <= n,
            out@ == pre + listed_lines(module@, cmds@.take(i as int)),
        decreases n - i,
    {
        assert(cmds@.take(i + 1).drop_last() =~= cmds@.take(i as int));
        append_listed_line(out, module, cmds.key_at(i), cmds.value_at(i));
        assert(out@ =~= pre + listed_lines(module@, cmds@.take(i + 1)));
        i = i + 1;
    }
    assert(cmds@.take(n as int) =~= cmds@);
}

fn append_usage(out: &mut Vec<char>, ps: &OrdMap<ParamConfig>, required: bool)
    ensures
        final(out)@ == old(out)@ + usage(ps@, required),
{
    let ghost pre = out@;
    let n = ps.len();
    let mut i: usize = 0;
    while i < n
        invariant
            n == ps@.len(),
            i <= n,
            out@ == pre + usage(ps@.take(i as int), required),
        decreases n - i,
    {
        assert(ps@.take(i + 1).drop_last() =~= ps@.take(i as int));
        let p = ps.value_at(i);
        if p.required == required {
            let name = ps.key_at(i);
            let upper = to_upper(name.as_str());
            if required {
                push_str(out, " --");
            } else {
                push_str(out, " [--");
            }
            push_str(out, name.as_str());
            push_str(out, " <");
            push_str(out, upper.as_str());
            if required {
                push_str(out, ">");
            } else {
                push_str(out, ">]");
            }
        }
        assert(out@ =~= pre + usage(ps@.take(i + 1), required));
        i = i + 1;
    }
    assert(ps@.take(n as int) =~= ps@);
}

/// Appends the detail lines of one kind and tells whether there was any.
fn append_details(out: &mut Vec<char>, ps: &OrdMap<ParamConfig>, required: bool) -> (any: bool)
    ensures
        final(out)@ == old(out)@ + details(ps@, required),
        any == has_kind(ps@, required),
{
    let ghost pre = out@;
    let n = ps.len();
    let mut any = false;
    let mut i: usize = 0;
    while i < n
        invariant
            n == ps@.len(),
            i <= n,
            out@ == pre + details(ps@.take(i as int), required),
            any == (exists|j: int| 0 <= j < i && #[trigger] ps@[j].1.required == required),
        decreases n - i,
    {
        assert(ps@.take(i + 1).drop_last() =~= ps@.take(i as int));
        let p = ps.value_at(i);
        if p.required == required {
            any = true;
            push_str(out, "  --");
            append_padded(out, ps.key_at(i).as_str(), 20);
            push_str(out, " ");
            append_opt(out, &p.description);
            if !required {
                match &p.default {
                    Some(d) => {
                        push_str(out, " (default: ");
                        push_str(out, d.as_str());
                        push_str(out, ")");
                    },
                    None => {},
                }
            }
            push_str(out, "\n");
        }
        assert(out@ =~= pre + details(ps@.take(i + 1), required));
        i = i + 1;
    }
    assert(ps@.take(n as int) =~= ps@);
    any
}

impl SiteConfig {
    /// Lists the modules with their number of commands.
    pub fn list_modules(&self) -> (r: String)
        ensures
            r@ == modules_listing(self.deep_view()),
    {
        let mut out = chars_of("Available modules:\n\n");
        let ghost pre = out@;
        let n = self.modules.len();
        let mut i: usize = 0;
        while i < n
            invariant
                n == self.modules@.len(),
                i <= n,
                out@ == pre + module_lines(self.modules@.take(i as int)),
            decreases n - i,
        {
            assert(self.modules@.take(i + 1).drop_last() =~= self.modules@.take(i as int));
            let name = self.modules.key_at(i);
            let m = self.modules.value_at(i);
            push_str(&mut out, "  ");
            append_padded(&mut out, name.as_str(), 25);
            push_str(&mut out, " ");
            let count = m.commands.len();
            let d = decimal_v(count as u128);
            append_chars(&mut out, &d);
            push_str(&mut out, " commands\n");
            assert(out@ =~= pre + module_lines(self.modules@.take(i + 1)));
            i = i + 1;
        }
        assert(self.modules@.take(n as int) =~= self.modules@);
        string_of(&out)
    }

    /// Help for a module: its commands with method, path and summary.
    pub fn help_for_module(&self, module: &str) -> (r: String)
        ensures
            r@ == module_help(self.deep_view(), module@),
    {
        match self.modules.get(module) {
            None => {
                let mut out = chars_of("Unknown module: '");
                push_str(&mut out, module);
                push_str(&mut out, "'\n\nAvailable modules: ");
                let listing = self.list_modules();
                push_str(&mut out, listing.as_str());
                string_of(&out)
            },
            Some(m) => {
                let mut out = chars_of("Module: ");
                push_str(&mut out, module);
                push_str(&mut out, "\n\nCommands:\n");
                append_command_lines(&mut out, &m.commands);
                string_of(&out)
            },
        }
    }

    /// Help for a command: method and path, summary, usage and the
    /// parameters with their descriptions and defaults.
    pub fn help_for_command(&self, module: &str, command: &str) -> (r: String)
        ensures
            r@ == command_help(self.deep_view(), module@, command@),
    {
        match self.get_endpoint(module, command) {
            None => {
                let mut out = chars_of("Unknown command: ");
                push_str(&mut out, module);
                push_str(&mut out, " ");
                push_str(&mut out, command);
                push_str(&mut out, "\n\n");
                let h = self.help_for_module(module);
                push_str(&mut out, h.as_str());
                string_of(&out)
            },
            Some(ep) => {
                let ghost e = ep.deep_view();
                let mut out = chars_of("API: ");
                let m = to_upper(ep.method.as_str());
                push_str(&mut out, m.as_str());
                push_str(&mut out, " ");
                push_str(&mut out, ep.path.as_str());
                push_str(&mut out, "\n");
                let ghost head = out@;
                match &ep.summary {
                    Some(s) => {
                        push_str(&mut out, s.as_str());
                        push_str(&mut out, "\n");
                    },
                    None => {},
                }
                let ghost with_summary = out@;
                assert(with_summary =~= head + (match e.summary {
                    Some(s) => s + "\n"@,
                    None => Seq::empty(),
                }));
                push_str(&mut out, "\n");
                push_str(&mut out, "Usage: restie ");
                push_str(&mut out, module);
                push_str(&mut out, " ");
                push_str(&mut out, command);
                append_usage(&mut out, &ep.params, true);
                append_usage(&mut out, &ep.params, false);
                push_str(&mut out, "\n");
                let ghost usage_done = out@;
                let mut req: Vec<char> = Vec::new();
                let any_req = append_details(&mut req, &ep.params, true);
                let mut opt: Vec<char> = Vec::new();
                let any_opt = append_details(&mut opt, &ep.params, false);
                if any_req {
                    push_str(&mut out, "\nRequired:\n");
                    append_chars(&mut out, &req);
                }
                let ghost req_done = out@;
                assert(req_done =~= usage_done + section(
                    has_kind(e.params, true),
                    "\nRequired:\n"@,
                    details(e.params, true),
                ));
                if any_opt {
                    push_str(&mut out, "\nOptional:\n");
                    append_chars(&mut out, &opt);
                }
                assert(out@ =~= req_done + section(
                    has_kind(e.params, false),
                    "\nOptional:\n"@,
                    details(e.params, false),
                ));
                assert(out@ =~= command_help(self.deep_view(), module@, command@));
                string_of(&out)
            },
        }
    }

    /// Lists every command of every module.
    pub fn list_all_commands(&self) -> (r: String)
        ensures
            r@ == all_commands(self.deep_view()),
    {
        let mut out = chars_of("Available commands:\n\n");
        let ghost pre = out@;
        let n = self.modules.len();
        let mut i: usize = 0;
        while i < n
            invariant
                n == self.modules@.len(),
                i <= n,
                out@ == pre + all_lines(self.modules@.take(i as int)),
            decreases n - i,
        {
            assert(self.modules@.take(i + 1).drop_last() =~= self.modules@.take(i as int));
            let name = self.modules.key_at(i);
            let m = self.modules.value_at(i);
            append_listed_lines(&mut out, name, &m.commands);
            assert(out@ =~= pre + all_lines(self.modules@.take(i + 1)));
            i = i + 1;
        }
        assert(self.modules@.take(n as int) =~= self.modules@);
        string_of(&out)
    }
}

pub open spec fn no_commands_note() -> Seq<char> {
    "Note: this config has no commands. Regenerate it (e.g. 'restie generate <preset>') or delete the file.\n\n"@
}

/// What `restie` (no arguments) or `restie list` prints for a loaded
/// configuration: the module listing or every command, a note when there is
/// no command, the site hint when one is given, and, for the module
/// listing, where to go next.
pub open spec fn overview(cfg: SiteModel, all: bool, hint: Option<Seq<char>>) -> Seq<char> {
    (if all {
        all_commands(cfg)
    } else {
        modules_listing(cfg)
    }) + "\n"@ + (if cfg.modules.len() == 0 {
        no_commands_note()
    } else {
        Seq::empty()
    }) + (match hint {
        Some(h) => h + "\n"@,
        None => Seq::empty(),
    }) + (if all {
        Seq::empty()
    } else {
        "\nUse 'restie <module> --help' to see commands in a module.\nUse 'restie list' to see all commands.\nUse 'restie sites' to see available site configs.\n"@
    })
}

impl SiteConfig {
    /// The overview of the configuration: modules (or all commands when
    /// `all`), with the optional site hint.
    pub fn overview_text(&self, all: bool, hint: Option<&str>) -> (r: String)
        ensures
            r@ == overview(
                self.deep_view(),
                all,
                match hint {
                    Some(h) => Some(h@),
                    None => None,
                },
            ),
    {
        let listing = if all {
            self.list_all_commands()
        } else {
            self.list_modules()
        };
        let mut out = chars_of(listing.as_str());
        push_str(&mut out, "\n");
        if self.modules.is_empty() {
            push_str(
                &mut out,
                "Note: this config has no commands. Regenerate it (e.g. 'restie generate <preset>') or delete the file.\n\n",
            );
        }
        match hint {
            Some(h) => {
                push_str(&mut out, h);
                push_str(&mut out, "\n");
            },
            None => {},
        }
        if !all {
            push_str(
                &mut out,
                "\nUse 'restie <module> --help' to see commands in a module.\nUse 'restie list' to see all commands.\nUse 'restie sites' to see available site configs.\n",
            );
        }
        let ghost h = match hint {
            Some(h) => Some(h@),
            None => None,
        };
        assert(out@ =~= overview(self.deep_view(), all, h));
        string_of(&out)
    }
}

} // verus!
