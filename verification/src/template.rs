//! Template expressions `${{ path }}` in task arguments: the values they name
//! (workflow inputs, results of earlier tasks, environment variables), their
//! substitution into JSON values, and the truth of `when` conditions.
//!
//! Expressions are found with the `regex` crate.
use vstd::prelude::*;
use crate::assoc::{keys_distinct, lookup, lemma_lookup, key_index, has_key, find_key};
use crate::json::{Json, JsonV, json_text, json_seq_view, json_fields_view, to_json_text, lemma_seq_view_push, lemma_fields_view_push};
use crate::text::{
    views, trim, find, lower, chars_of, string_of, trim_str, str_eq, concat, to_lowercase, lemma_find_from_some,
    find_exec, ToOwnedString,
};
use crate::workflow::{CoreError, TaskResult, TaskStatus};

verus! {

// ---------------------------------------------------------------------------
// The regular expression
// ---------------------------------------------------------------------------

/// The whole text and the path (first group) of the first template
/// expression in `s` (`Regex::captures`), if there is one.
pub uninterp spec fn template_first_match(s: Seq<char>) -> Option<(Seq<char>, Seq<char>)>;

/// The pieces of `s` between template expressions, in order (`Regex::split`).
pub uninterp spec fn template_split(s: Seq<char>) -> Seq<Seq<char>>;

/// The paths (first groups) of the template expressions of `s`, in order (`Regex::captures_iter`).
pub uninterp spec fn template_groups(s: Seq<char>) -> Seq<Seq<char>>;

/// Calls `Regex::captures` with the template pattern `\$\{\{\s*([^}]+)\s*\}\}`:
/// the whole first match and its first group. Claims the result is a function of the text alone.
#[verifier::external_body]
fn regex_first_match(s: &str) -> (r: Option<(String, String)>)
    ensures
        match r {
            Some((whole, group)) => template_first_match(s@) == Some((whole@, group@)),
            None => template_first_match(s@) is None,
        },
{
    let re = regex::Regex::new(r"\$\{\{\s*([^}]+)\s*\}\}").unwrap();
    re.captures(s).map(|c| (c[0].to_string(), c[1].to_string()))
}

/// Calls `Regex::split` with the template pattern: the pieces around the
/// matches. As the crate documents, each match has a piece before it and the
/// last one a piece after it (empty at the ends), so there is one more piece
/// than matches.
#[verifier::external_body]
fn regex_split(s: &str) -> (r: Vec<String>)
    ensures
        views(r@) == template_split(s@),
        r@.len() == template_groups(s@).len() + 1,
{
    let re = regex::Regex::new(r"\$\{\{\s*([^}]+)\s*\}\}").unwrap();
    re.split(s).map(|p| p.to_string()).collect()
}

/// Calls `Regex::captures_iter` with the template pattern: the first group of
/// each match, in order.
#[verifier::external_body]
fn regex_groups(s: &str) -> (r: Vec<String>)
    ensures
        views(r@) == template_groups(s@),
{
    let re = regex::Regex::new(r"\$\{\{\s*([^}]+)\s*\}\}").unwrap();
    re.captures_iter(s).map(|c| c[1].to_string()).collect()
}

// ---------------------------------------------------------------------------
// The context
// ---------------------------------------------------------------------------

/// What template expressions can name: workflow inputs, the results of
/// finished tasks, and environment variables, each under its name.
#[derive(Debug)]
pub struct TemplateContext {
    pub inputs: Vec<(String, Json)>,
    pub tasks: Vec<(String, TaskResult)>,
    pub env: Vec<(String, String)>,
}

/// The model of a context.
pub struct CtxV {
    pub inputs: Seq<(Seq<char>, JsonV)>,
    pub tasks: Seq<(Seq<char>, (TaskStatus, JsonV))>,
    pub env: Seq<(Seq<char>, Seq<char>)>,
}

impl View for TemplateContext {
    type V = CtxV;

    open spec fn view(&self) -> CtxV {
        CtxV {
            inputs: self.inputs@.map_values(|p: (String, Json)| (p.0@, p.1@)),
            tasks: self.tasks@.map_values(|p: (String, TaskResult)| (p.0@, (p.1.status, p.1.output@))),
            env: self.env@.map_values(|p: (String, String)| (p.0@, p.1@)),
        }
    }
}

impl TemplateContext {
    /// No inputs, results or variables.
    pub fn new() -> (c: Self)
        ensures
            c@.inputs.len() == 0,
            c@.tasks.len() == 0,
            c@.env.len() == 0,
            c.wf(),
    {
        let c = TemplateContext { inputs: Vec::new(), tasks: Vec::new(), env: Vec::new() };
        assert(c@.inputs =~= Seq::<(Seq<char>, JsonV)>::empty());
        assert(c@.tasks =~= Seq::<(Seq<char>, (TaskStatus, JsonV))>::empty());
        assert(c@.env =~= Seq::<(Seq<char>, Seq<char>)>::empty());
        c
    }

    /// Each name occurs once in each of the three lists.
    pub open spec fn wf(&self) -> bool {
        keys_distinct(self@.inputs) && keys_distinct(self@.tasks) && keys_distinct(self@.env)
    }
}

impl TemplateContext {
    /// Records the result of a finished task under its name.
    pub fn record_task(&mut self, name: &str, result: TaskResult)
        requires
            old(self).wf(),
        ensures
            final(self).wf(),
            final(self)@.inputs == old(self)@.inputs,
            final(self)@.env == old(self)@.env,
            final(self)@.tasks == crate::assoc::assoc_insert(
                old(self)@.tasks,
                name@,
                (result.status, result.output@),
            ),
    {
        let ghost old_t = self@.tasks;
        let ghost rv = (result.status, result.output@);
        match find_key(&self.tasks, name) {
            Some(j) => {
                proof {
                    lemma_found(old_t, j as int, name@);
                }
                let k = self.tasks[j].0.clone();
                self.tasks.set(j, (k, result));
                assert(self@.tasks =~= old_t.update(j as int, (name@, rv)));
            },
            None => {
                proof {
                    lemma_not_found(old_t, name@);
                }
                self.tasks.push((name.to_owned_string(), result));
                assert(self@.tasks =~= old_t.push((name@, rv)));
            },
        }
        proof {
            crate::assoc::lemma_lookup_insert(old_t, name@, rv);
        }
    }
}

// ---------------------------------------------------------------------------
// Paths
// ---------------------------------------------------------------------------

/// `s` split at each `c` (`str::split`): one more piece than there are `c`s.
pub open spec fn split_char(s: Seq<char>, c: char) -> Seq<Seq<char>>
    decreases s.len(),
{
    match find(s, seq![c]) {
        None => seq![s],
        Some(i) => if 0 <= i < s.len() {
            seq![s.subrange(0, i)] + split_char(s.subrange(i + 1, s.len() as int), c)
        } else {
            seq![s]
        },
    }
}

/// The value a path names, or the error's text.
pub open spec fn path_value(path: Seq<char>, ctx: CtxV) -> Result<JsonV, Seq<char>> {
    let parts = split_char(path, '.');
    let invalid = "invalid template path: "@ + path;
    if parts[0] == "inputs"@ {
        if parts.len() < 2 {
            Err(invalid)
        } else {
            match lookup(ctx.inputs, parts[1]) {
                Some(v) => Ok(v),
                None => Err("input '"@ + parts[1] + "' not found"@),
            }
        }
    } else if parts[0] == "tasks"@ {
        if parts.len() < 3 {
            Err(invalid)
        } else {
            match lookup(ctx.tasks, parts[1]) {
                None => Err("task '"@ + parts[1] + "' result not found"@),
                Some(r) => if parts[2] == "output"@ {
                    Ok(r.1)
                } else if parts[2] == "status"@ {
                    Ok(JsonV::Str(r.0.text()))
                } else {
                    Err("unknown task field: '"@ + parts[2] + "'"@)
                },
            }
        }
    } else if parts[0] == "env"@ {
        if parts.len() < 2 {
            Err(invalid)
        } else {
            match lookup(ctx.env, parts[1]) {
                Some(v) => Ok(JsonV::Str(v)),
                None => Err("env var '"@ + parts[1] + "' not found"@),
            }
        }
    } else {
        Err("unknown template variable namespace in: "@ + path)
    }
}

/// Splits `s` at each `c`.
fn split_char_exec(s: &str, c: char) -> (r: Vec<String>)
    ensures
        views(r@) == split_char(s@, c),
        r@.len() >= 1,
{
    let v = chars_of(s);
    let mut sep: Vec<char> = Vec::new();
    sep.push(c);
    assert(sep@ =~= seq![c]);
    let mut out: Vec<String> = Vec::new();
    let mut from: usize = 0;
    assert(v@.subrange(0, v@.len() as int) =~= v@);
    assert(views(out@) =~= Seq::<Seq<char>>::empty());
    loop
        invariant
            from <= v.len(),
            sep@ == seq![c],
            split_char(s@, c) == views(out@) + split_char(v@.subrange(from as int, v@.len() as int), c),
            v@ == s@,
        decreases v.len() - from,
    {
        let rest = crate::text::sub_chars(&v, from, v.len());
        proof {
            lemma_find_from_some(rest@, sep@, 0);
        }
        match find_exec(&rest, &sep) {
            None => {
                let ghost before = views(out@);
                out.push(string_of(&v, from, v.len()));
                assert(views(out@) =~= before.push(rest@));
                assert(split_char(s@, c) =~= views(out@));
                return out;
            },
            Some(i) => {
                let ghost before = views(out@);
                assert(v@.subrange(from as int, from + i) =~= rest@.subrange(0, i as int));
                out.push(string_of(&v, from, from + i));
                assert(views(out@) =~= before.push(rest@.subrange(0, i as int)));
                assert(rest@.subrange(i + 1, rest@.len() as int) =~= v@.subrange(from + i + 1, v@.len() as int));
                assert(seq![rest@.subrange(0, i as int)] + split_char(
                    rest@.subrange(i + 1, rest@.len() as int),
                    c,
                ) == split_char(rest@, c));
                assert(views(out@) + split_char(v@.subrange(from + i + 1, v@.len() as int), c) =~= before + split_char(
                    rest@,
                    c,
                ));
                from = from + i + 1;
            },
        }
    }
}

/// The value stored under `k` among the inputs.
fn input_value(ctx: &TemplateContext, k: &str) -> (r: Option<Json>)
    requires
        ctx.wf(),
    ensures
        match r {
            Some(v) => lookup(ctx@.inputs, k@) == Some(v@),
            None => lookup(ctx@.inputs, k@) is None,
        },
{
    proof {
        lemma_lookup(ctx@.inputs, k@);
    }
    match find_key(&ctx.inputs, k) {
        Some(j) => {
            proof {
                lemma_found(ctx@.inputs, j as int, k@);
            }
            Some(ctx.inputs[j].1.deep_clone())
        },
        None => {
            proof {
                lemma_not_found(ctx@.inputs, k@);
            }
            None
        },
    }
}

/// A key found at position `j` is the one the model chooses.
proof fn lemma_found<V>(kvs: Seq<(Seq<char>, V)>, j: int, k: Seq<char>)
    requires
        keys_distinct(kvs),
        0 <= j < kvs.len(),
        kvs[j].0 == k,
    ensures
        has_key(kvs, k),
        key_index(kvs, k) == j,
{
    let c = key_index(kvs, k);
    if c != j {
        if c < j {
            assert(kvs[c].0 != kvs[j].0);
        } else {
            assert(kvs[j].0 != kvs[c].0);
        }
    }
}

/// A key found at position `j` of a list with distinct keys is the one the model chooses.
pub proof fn lemma_found_pub<V>(kvs: Seq<(Seq<char>, V)>, j: int, k: Seq<char>)
    requires
        keys_distinct(kvs),
        0 <= j < kvs.len(),
        kvs[j].0 == k,
    ensures
        has_key(kvs, k),
        key_index(kvs, k) == j,
{
    lemma_found(kvs, j, k);
}

/// A key that no entry of a list has is not a key of it.
pub proof fn lemma_not_found_pub<V>(kvs: Seq<(Seq<char>, V)>, k: Seq<char>)
    requires
        forall|j: int| 0 <= j < kvs.len() ==> (#[trigger] kvs[j]).0 != k,
    ensures
        !has_key(kvs, k),
{
    lemma_not_found(kvs, k);
}

/// A key that no entry has is not a key of the model.
proof fn lemma_not_found<V>(kvs: Seq<(Seq<char>, V)>, k: Seq<char>)
    requires
        forall|j: int| 0 <= j < kvs.len() ==> (#[trigger] kvs[j]).0 != k,
    ensures
        !has_key(kvs, k),
{
    if has_key(kvs, k) {
        let c = key_index(kvs, k);
        assert(kvs[c].0 == k);
    }
}

/// The value a path names.
pub fn resolve_path(path: &str, ctx: &TemplateContext) -> (r: Result<Json, CoreError>)
    requires
        ctx.wf(),
    ensures
        match r {
            Ok(v) => path_value(path@, ctx@) == Ok::<JsonV, Seq<char>>(v@),
            Err(CoreError::Template(m)) => path_value(path@, ctx@) == Err::<JsonV, Seq<char>>(m@),
            Err(_) => false,
        },
{
    let parts = split_char_exec(path, '.');
    proof {
        assert(views(parts@)[0] == parts@[0]@);
    }
    if str_eq(parts[0].as_str(), "inputs") {
        if parts.len() < 2 {
            return Err(CoreError::Template(concat("invalid template path: ", path)));
        }
        assert(views(parts@)[1] == parts@[1]@);
        match input_value(ctx, parts[1].as_str()) {
            Some(v) => Ok(v),
            None => {
                let mut m = concat("input '", parts[1].as_str());
                m.append("' not found");
                Err(CoreError::Template(m))
            },
        }
    } else if str_eq(parts[0].as_str(), "tasks") {
        if parts.len() < 3 {
            return Err(CoreError::Template(concat("invalid template path: ", path)));
        }
        assert(views(parts@)[1] == parts@[1]@);
        assert(views(parts@)[2] == parts@[2]@);
        proof {
            lemma_lookup(ctx@.tasks, parts@[1]@);
        }
        match find_key(&ctx.tasks, parts[1].as_str()) {
            None => {
                proof {
                    lemma_not_found(ctx@.tasks, parts@[1]@);
                }
                let mut m = concat("task '", parts[1].as_str());
                m.append("' result not found");
                Err(CoreError::Template(m))
            },
            Some(j) => {
                proof {
                    lemma_found(ctx@.tasks, j as int, parts@[1]@);
                }
                let result = &ctx.tasks[j].1;
                if str_eq(parts[2].as_str(), "output") {
                    Ok(result.output.deep_clone())
                } else if str_eq(parts[2].as_str(), "status") {
                    Ok(Json::Str(result.status.to_string()))
                } else {
                    let mut m = concat("unknown task field: '", parts[2].as_str());
                    m.append("'");
                    Err(CoreError::Template(m))
                }
            },
        }
    } else if str_eq(parts[0].as_str(), "env") {
        if parts.len() < 2 {
            return Err(CoreError::Template(concat("invalid template path: ", path)));
        }
        assert(views(parts@)[1] == parts@[1]@);
        proof {
            lemma_lookup(ctx@.env, parts@[1]@);
        }
        match find_key(&ctx.env, parts[1].as_str()) {
            Some(j) => {
                proof {
                    lemma_found(ctx@.env, j as int, parts@[1]@);
                }
                Ok(Json::Str(ctx.env[j].1.clone()))
            },
            None => {
                proof {
                    lemma_not_found(ctx@.env, parts@[1]@);
                }
                let mut m = concat("env var '", parts[1].as_str());
                m.append("' not found");
                Err(CoreError::Template(m))
            },
        }
    } else {
        Err(CoreError::Template(concat("unknown template variable namespace in: ", path)))
    }
}

// ---------------------------------------------------------------------------
// Strings
// ---------------------------------------------------------------------------

/// What an expression embedded in text becomes: a string value itself, another
/// value its JSON text, and an expression that names nothing stays as
/// `${{path}}`.
pub open spec fn embedded_text(path: Seq<char>, ctx: CtxV) -> Seq<char> {
    match path_value(path, ctx) {
        Ok(JsonV::Str(s)) => s,
        Ok(v) => json_text(v),
        Err(_) => "${{"@ + path + "}}"@,
    }
}

/// The pieces of a text with the expressions between them replaced.
pub open spec fn substituted(pieces: Seq<Seq<char>>, paths: Seq<Seq<char>>, ctx: CtxV) -> Seq<char>
    decreases paths.len(),
{
    if paths.len() == 0 || pieces.len() == 0 {
        if pieces.len() > 0 {
            pieces[0]
        } else {
            Seq::empty()
        }
    } else {
        substituted(pieces.drop_last(), paths.drop_last(), ctx) + embedded_text(trim(paths.last()), ctx)
            + pieces.last()
    }
}

/// An expression embedded in text becomes the text of what it names: a
/// string as it is, any other value as its JSON text; an expression that
/// names nothing is left as it was written.
pub proof fn law_embedded_text(path: Seq<char>, ctx: CtxV, v: JsonV)
    ensures
        path_value(path, ctx) matches Ok(JsonV::Str(s)) ==> embedded_text(path, ctx) == s,
        path_value(path, ctx) == Ok::<JsonV, Seq<char>>(v) && !(v is Str) ==> embedded_text(path, ctx) == json_text(v),
        path_value(path, ctx) is Err ==> embedded_text(path, ctx) == "${{"@ + path + "}}"@,
{
}

/// A string with one expression inside other text resolves to that text with
/// the expression replaced by the text of the value it names: a non-string
/// value by its JSON text. (Where the expression stands is what the template
/// pattern finds.)
pub proof fn law_one_embedded_value(s: Seq<char>, ctx: CtxV, before: Seq<char>, path: Seq<char>, after: Seq<char>, v: JsonV)
    requires
        template_first_match(s) is Some,
        !(template_first_match(trim(s)) matches Some((whole, _)) && whole == trim(s)),
        template_split(s) == seq![before, after],
        template_groups(s) == seq![path],
        path_value(trim(path), ctx) == Ok::<JsonV, Seq<char>>(v),
    ensures
        resolve_text(s, ctx) == Ok::<JsonV, Seq<char>>(JsonV::Str(before + (if v is Str {
            v->Str_0
        } else {
            json_text(v)
        }) + after)),
{
    let pieces = seq![before, after];
    let paths = seq![path];
    assert(pieces.drop_last() =~= seq![before]);
    assert(paths.drop_last() =~= Seq::<Seq<char>>::empty());
    assert(substituted(pieces, paths, ctx) == substituted(seq![before], Seq::<Seq<char>>::empty(), ctx)
        + embedded_text(trim(path), ctx) + after);
}

/// What a string with template expressions resolves to: itself when it has
/// none; the value named, keeping its type, when the trimmed string is a
/// single expression; else the string with each expression replaced by text.
pub open spec fn resolve_text(s: Seq<char>, ctx: CtxV) -> Result<JsonV, Seq<char>> {
    match template_first_match(s) {
        None => Ok(JsonV::Str(s)),
        Some(_) => {
            let t = trim(s);
            match template_first_match(t) {
                Some((whole, group)) => if whole == t {
                    path_value(trim(group), ctx)
                } else {
                    Ok(JsonV::Str(substituted(template_split(s), template_groups(s), ctx)))
                },
                None => Ok(JsonV::Str(substituted(template_split(s), template_groups(s), ctx))),
            }
        },
    }
}

/// The text an expression embedded in a string becomes.
fn embedded_text_exec(path: &str, ctx: &TemplateContext) -> (r: String)
    requires
        ctx.wf(),
    ensures
        r@ == embedded_text(path@, ctx@),
{
    match resolve_path(path, ctx) {
        Ok(v) => match &v {
            Json::Str(s) => s.clone(),
            _ => to_json_text(&v),
        },
        Err(_) => {
            let mut m = concat("${{", path);
            m.append("}}");
            m
        },
    }
}

/// The pieces of a text, with the expressions between them replaced.
pub fn substitute_templates(pieces: &Vec<String>, paths: &Vec<String>, ctx: &TemplateContext) -> (r: String)
    requires
        ctx.wf(),
        pieces@.len() == paths@.len() + 1,
    ensures
        r@ == substituted(views(pieces@), views(paths@), ctx@),
{
    let mut out = pieces[0].clone();
    let mut i: usize = 0;
    proof {
        assert(views(pieces@.subrange(0, 1)) =~= seq![pieces@[0]@]);
        assert(views(paths@.subrange(0, 0)) =~= Seq::<Seq<char>>::empty());
    }
    while i < paths.len()
        invariant
            i <= paths.len(),
            pieces@.len() == paths@.len() + 1,
            ctx.wf(),
            out@ == substituted(views(pieces@.subrange(0, i + 1)), views(paths@.subrange(0, i as int)), ctx@),
        decreases paths.len() - i,
    {
        let p = trim_str(paths[i].as_str());
        let e = embedded_text_exec(p.as_str(), ctx);
        out.append(e.as_str());
        out.append(pieces[i + 1].as_str());
        proof {
            let pc = views(pieces@.subrange(0, i + 2));
            let pt = views(paths@.subrange(0, i + 1));
            assert(pc.drop_last() =~= views(pieces@.subrange(0, i + 1)));
            assert(pt.drop_last() =~= views(paths@.subrange(0, i as int)));
            assert(pc.last() == pieces@[i + 1]@);
            assert(pt.last() == paths@[i as int]@);
        }
        i = i + 1;
    }
    assert(pieces@.subrange(0, i + 1) =~= pieces@);
    assert(paths@.subrange(0, i as int) =~= paths@);
    out
}

/// Resolves the template expressions of a string.
pub fn resolve_string(s: &str, ctx: &TemplateContext) -> (r: Result<Json, CoreError>)
    requires
        ctx.wf(),
    ensures
        match r {
            Ok(v) => resolve_text(s@, ctx@) == Ok::<JsonV, Seq<char>>(v@),
            Err(CoreError::Template(m)) => resolve_text(s@, ctx@) == Err::<JsonV, Seq<char>>(m@),
            Err(_) => false,
        },
{
    if regex_first_match(s).is_none() {
        return Ok(Json::Str(s.to_owned_string()));
    }
    let t = trim_str(s);
    match regex_first_match(t.as_str()) {
        Some((whole, group)) => {
            if str_eq(whole.as_str(), t.as_str()) {
                let path = trim_str(group.as_str());
                return resolve_path(path.as_str(), ctx);
            }
        },
        None => {},
    }
    let pieces = regex_split(s);
    let paths = regex_groups(s);
    Ok(Json::Str(substitute_templates(&pieces, &paths, ctx)))
}

// ---------------------------------------------------------------------------
// JSON values
// ---------------------------------------------------------------------------

/// A value with every template expression in its strings resolved, in
/// objects and arrays too; the first expression (in order) that names nothing
/// gives the error.
pub open spec fn resolve_value(v: JsonV, ctx: CtxV) -> Result<JsonV, Seq<char>>
    decreases v,
{
    match v {
        JsonV::Str(s) => resolve_text(s, ctx),
        JsonV::Array(a) => match resolve_items(a, ctx) {
            Ok(b) => Ok(JsonV::Array(b)),
            Err(e) => Err(e),
        },
        JsonV::Object(fs) => match resolve_fields(fs, ctx) {
            Ok(b) => Ok(JsonV::Object(b)),
            Err(e) => Err(e),
        },
        _ => Ok(v),
    }
}

/// The items of an array, resolved.
pub open spec fn resolve_items(a: Seq<JsonV>, ctx: CtxV) -> Result<Seq<JsonV>, Seq<char>>
    decreases a,
{
    if a.len() == 0 {
        Ok(Seq::empty())
    } else {
        match resolve_items(a.drop_last(), ctx) {
            Err(e) => Err(e),
            Ok(b) => match resolve_value(a.last(), ctx) {
                Err(e) => Err(e),
                Ok(x) => Ok(b.push(x)),
            },
        }
    }
}

/// The fields of an object, their values resolved.
pub open spec fn resolve_fields(fs: Seq<(Seq<char>, JsonV)>, ctx: CtxV) -> Result<Seq<(Seq<char>, JsonV)>, Seq<char>>
    decreases fs,
{
    if fs.len() == 0 {
        Ok(Seq::empty())
    } else {
        match resolve_fields(fs.drop_last(), ctx) {
            Err(e) => Err(e),
            Ok(b) => match resolve_value(fs.last().1, ctx) {
                Err(e) => Err(e),
                Ok(x) => Ok(b.push((fs.last().0, x))),
            },
        }
    }
}

/// No string in the value, at any depth, holds a template expression.
pub open spec fn no_templates(v: JsonV) -> bool
    decreases v,
{
    match v {
        JsonV::Str(s) => template_first_match(s) is None,
        JsonV::Array(a) => no_templates_items(a),
        JsonV::Object(fs) => no_templates_fields(fs),
        _ => true,
    }
}

/// No item of the array holds a template expression.
pub open spec fn no_templates_items(a: Seq<JsonV>) -> bool
    decreases a,
{
    if a.len() == 0 {
        true
    } else {
        no_templates_items(a.drop_last()) && no_templates(a.last())
    }
}

/// No field value of the object holds a template expression.
pub open spec fn no_templates_fields(fs: Seq<(Seq<char>, JsonV)>) -> bool
    decreases fs,
{
    if fs.len() == 0 {
        true
    } else {
        no_templates_fields(fs.drop_last()) && no_templates(fs.last().1)
    }
}

/// A value with no template expression resolves to itself, whatever the context.
pub proof fn law_plain_values_pass_through(v: JsonV, ctx: CtxV)
    requires
        no_templates(v),
    ensures
        resolve_value(v, ctx) == Ok::<JsonV, Seq<char>>(v),
    decreases v,
{
    match v {
        JsonV::Array(a) => {
            lemma_plain_items(a, ctx);
        },
        JsonV::Object(fs) => {
            lemma_plain_fields(fs, ctx);
        },
        _ => {},
    }
}

proof fn lemma_plain_items(a: Seq<JsonV>, ctx: CtxV)
    requires
        no_templates_items(a),
    ensures
        resolve_items(a, ctx) == Ok::<Seq<JsonV>, Seq<char>>(a),
    decreases a,
{
    if a.len() == 0 {
        assert(a =~= Seq::<JsonV>::empty());
    } else {
        lemma_plain_items(a.drop_last(), ctx);
        law_plain_values_pass_through(a.last(), ctx);
        assert(a.drop_last().push(a.last()) =~= a);
    }
}

proof fn lemma_plain_fields(fs: Seq<(Seq<char>, JsonV)>, ctx: CtxV)
    requires
        no_templates_fields(fs),
    ensures
        resolve_fields(fs, ctx) == Ok::<Seq<(Seq<char>, JsonV)>, Seq<char>>(fs),
    decreases fs,
{
    if fs.len() == 0 {
        assert(fs =~= Seq::<(Seq<char>, JsonV)>::empty());
    } else {
        lemma_plain_fields(fs.drop_last(), ctx);
        law_plain_values_pass_through(fs.last().1, ctx);
        assert(fs.drop_last().push((fs.last().0, fs.last().1)) =~= fs);
    }
}

/// Resolved items are the items resolved one by one, or the first error.
proof fn lemma_items_shape(a: Seq<JsonV>, ctx: CtxV)
    ensures
        resolve_items(a, ctx) matches Ok(b) ==> b.len() == a.len() && forall|i: int|
            0 <= i < a.len() ==> resolve_value(#[trigger] a[i], ctx) == Ok::<JsonV, Seq<char>>(b[i]),
        (forall|i: int| 0 <= i < a.len() ==> resolve_value(#[trigger] a[i], ctx) is Ok) ==> resolve_items(a, ctx) is Ok,
    decreases a.len(),
{
    if a.len() > 0 {
        lemma_items_shape(a.drop_last(), ctx);
        assert forall|i: int| 0 <= i < a.len() - 1 implies #[trigger] a.drop_last()[i] == a[i] by {}
        if resolve_items(a, ctx) is Ok {
            let b = resolve_items(a, ctx)->Ok_0;
            let b0 = resolve_items(a.drop_last(), ctx)->Ok_0;
            assert forall|i: int| 0 <= i < a.len() implies resolve_value(#[trigger] a[i], ctx) == Ok::<JsonV, Seq<char>>(b[i]) by {
                if i < a.len() - 1 {
                    assert(a.drop_last()[i] == a[i]);
                    assert(b[i] == b0[i]);
                }
            }
        }
        if forall|i: int| 0 <= i < a.len() ==> resolve_value(#[trigger] a[i], ctx) is Ok {
            assert forall|i: int| 0 <= i < a.drop_last().len() implies resolve_value(#[trigger] a.drop_last()[i], ctx) is Ok by {
                assert(a.drop_last()[i] == a[i]);
            }
            assert(resolve_value(a[a.len() - 1], ctx) is Ok);
        }
    }
}

/// Resolved fields are the fields with their values resolved one by one, or the first error.
proof fn lemma_fields_shape(fs: Seq<(Seq<char>, JsonV)>, ctx: CtxV)
    ensures
        resolve_fields(fs, ctx) matches Ok(gs) ==> gs.len() == fs.len() && forall|i: int|
            0 <= i < fs.len() ==> (#[trigger] gs[i]).0 == fs[i].0 && resolve_value(fs[i].1, ctx) == Ok::<
                JsonV,
                Seq<char>,
            >(gs[i].1),
        (forall|i: int| 0 <= i < fs.len() ==> resolve_value((#[trigger] fs[i]).1, ctx) is Ok) ==> resolve_fields(
            fs,
            ctx,
        ) is Ok,
    decreases fs.len(),
{
    if fs.len() > 0 {
        lemma_fields_shape(fs.drop_last(), ctx);
        assert forall|i: int| 0 <= i < fs.len() - 1 implies #[trigger] fs.drop_last()[i] == fs[i] by {}
        if resolve_fields(fs, ctx) is Ok {
            let gs = resolve_fields(fs, ctx)->Ok_0;
            let g0 = resolve_fields(fs.drop_last(), ctx)->Ok_0;
            assert forall|i: int| 0 <= i < fs.len() implies (#[trigger] gs[i]).0 == fs[i].0 && resolve_value(fs[i].1, ctx) == Ok::<
                JsonV,
                Seq<char>,
            >(gs[i].1) by {
                if i < fs.len() - 1 {
                    assert(fs.drop_last()[i] == fs[i]);
                    assert(gs[i] == g0[i]);
                }
            }
        }
        if forall|i: int| 0 <= i < fs.len() ==> resolve_value((#[trigger] fs[i]).1, ctx) is Ok {
            assert forall|i: int| 0 <= i < fs.drop_last().len() implies resolve_value((#[trigger] fs.drop_last()[i]).1, ctx) is Ok by {
                assert(fs.drop_last()[i] == fs[i]);
            }
            assert(resolve_value(fs[fs.len() - 1].1, ctx) is Ok);
        }
    }
}

/// Resolving keeps a value's shape: a string becomes what its templates
/// resolve to; an array stays an array of as many items, each resolved, and
/// an object keeps its keys in order, each value resolved; other values stay
/// as they are. It fails exactly when some string in it fails.
pub proof fn law_resolve_keeps_shape(v: JsonV, ctx: CtxV)
    ensures
        v is Str ==> resolve_value(v, ctx) == resolve_text(v->Str_0, ctx),
        (v is Null || v is Bool || v is Number) ==> resolve_value(v, ctx) == Ok::<JsonV, Seq<char>>(v),
        v matches JsonV::Array(a) ==> ((forall|i: int| 0 <= i < a.len() ==> resolve_value(#[trigger] a[i], ctx) is Ok)
            <==> resolve_value(v, ctx) is Ok) && (resolve_value(v, ctx) matches Ok(r) ==> r matches JsonV::Array(b)
            && b.len() == a.len() && forall|i: int|
            0 <= i < a.len() ==> resolve_value(#[trigger] a[i], ctx) == Ok::<JsonV, Seq<char>>(b[i])),
        v matches JsonV::Object(fs) ==> ((forall|i: int| 0 <= i < fs.len() ==> resolve_value((#[trigger] fs[i]).1, ctx) is Ok)
            <==> resolve_value(v, ctx) is Ok) && (resolve_value(v, ctx) matches Ok(r) ==> r matches JsonV::Object(gs)
            && gs.len() == fs.len() && forall|i: int|
            0 <= i < fs.len() ==> (#[trigger] gs[i]).0 == fs[i].0 && resolve_value(fs[i].1, ctx) == Ok::<
                JsonV,
                Seq<char>,
            >(gs[i].1)),
{
    match v {
        JsonV::Array(a) => {
            lemma_items_shape(a, ctx);
            if resolve_value(v, ctx) is Ok {
                let b = resolve_items(a, ctx)->Ok_0;
                assert forall|i: int| 0 <= i < a.len() implies resolve_value(#[trigger] a[i], ctx) is Ok by {
                    assert(resolve_value(a[i], ctx) == Ok::<JsonV, Seq<char>>(b[i]));
                }
            }
        },
        JsonV::Object(fs) => {
            lemma_fields_shape(fs, ctx);
            if resolve_value(v, ctx) is Ok {
                let gs = resolve_fields(fs, ctx)->Ok_0;
                assert forall|i: int| 0 <= i < fs.len() implies resolve_value((#[trigger] fs[i]).1, ctx) is Ok by {
                    assert(gs[i].0 == fs[i].0);
                }
            }
        },
        _ => {},
    }
}

/// A string that is, once trimmed, one whole expression naming an input the
/// context lacks resolves to the error that the input is not found. (Where
/// the expressions are is what the template pattern finds: `template_first_match`.)
pub proof fn law_missing_input_fails(s: Seq<char>, ctx: CtxV, group: Seq<char>, k: Seq<char>)
    requires
        template_first_match(s) is Some,
        template_first_match(trim(s)) == Some((trim(s), group)),
        split_char(trim(group), '.').len() >= 2,
        split_char(trim(group), '.')[0] == "inputs"@,
        split_char(trim(group), '.')[1] == k,
        lookup(ctx.inputs, k) is None,
    ensures
        resolve_value(JsonV::Str(s), ctx) == Err::<JsonV, Seq<char>>("input '"@ + k + "' not found"@),
{
}

/// Resolves every template expression in a value.
#[verifier::loop_isolation(false)]
pub fn resolve_templates(value: &Json, ctx: &TemplateContext) -> (r: Result<Json, CoreError>)
    requires
        ctx.wf(),
    ensures
        match r {
            Ok(v) => resolve_value(value@, ctx@) == Ok::<JsonV, Seq<char>>(v@),
            Err(CoreError::Template(m)) => resolve_value(value@, ctx@) == Err::<JsonV, Seq<char>>(m@),
            Err(_) => false,
        },
    decreases value,
{
    match value {
        Json::Str(s) => resolve_string(s.as_str(), ctx),
        Json::Array(a) => {
            let mut out: Vec<Json> = Vec::new();
            let mut i: usize = 0;
            proof {
                assert(json_seq_view(a@).len() == a@.len()) by {
                    crate::json::lemma_seq_view_index(a@);
                }
            }
            while i < a.len()
                invariant
                    i <= a.len(),
                    ctx.wf(),
                    value@ == JsonV::Array(json_seq_view(a@)),
                    resolve_items(json_seq_view(a@.subrange(0, i as int)), ctx@) == Ok::<Seq<JsonV>, Seq<char>>(
                        json_seq_view(out@),
                    ),
                decreases a.len() - i,
            {
                proof {
                    assert(decreases_to!(*value => (*value)->Array_0));
                    assert(decreases_to!(*a => a@));
                    assert(decreases_to!(a@ => a@[i as int]));
                }
                let ghost pre = a@.subrange(0, i as int);
                let x = match resolve_templates(&a[i], ctx) {
                    Ok(x) => x,
                    Err(e) => {
                        proof {
                            lemma_items_err(a@, i as int, ctx@);
                        }
                        return Err(e);
                    },
                };
                proof {
                    lemma_seq_view_push(out@, x);
                    lemma_seq_view_push(pre, a@[i as int]);
                    assert(a@.subrange(0, i + 1) =~= pre.push(a@[i as int]));
                    let vs = json_seq_view(a@.subrange(0, i + 1));
                    assert(vs.drop_last() =~= json_seq_view(pre));
                }
                out.push(x);
                i = i + 1;
            }
            assert(a@.subrange(0, i as int) =~= a@);
            Ok(Json::Array(out))
        },
        Json::Object(m) => {
            let mut out: Vec<(String, Json)> = Vec::new();
            let mut i: usize = 0;
            while i < m.len()
                invariant
                    i <= m.len(),
                    ctx.wf(),
                    value@ == JsonV::Object(json_fields_view(m@)),
                    resolve_fields(json_fields_view(m@.subrange(0, i as int)), ctx@) == Ok::<
                        Seq<(Seq<char>, JsonV)>,
                        Seq<char>,
                    >(json_fields_view(out@)),
                decreases m.len() - i,
            {
                proof {
                    assert(decreases_to!(*value => (*value)->Object_0));
                    assert(decreases_to!(*m => m@));
                    assert(decreases_to!(m@ => m@[i as int]));
                    assert(decreases_to!(m@[i as int] => m@[i as int].1));
                }
                let ghost pre = m@.subrange(0, i as int);
                let x = match resolve_templates(&m[i].1, ctx) {
                    Ok(x) => x,
                    Err(e) => {
                        proof {
                            lemma_fields_err(m@, i as int, ctx@);
                        }
                        return Err(e);
                    },
                };
                let k = m[i].0.clone();
                proof {
                    lemma_fields_view_push(out@, k, x);
                    lemma_fields_view_push(pre, m@[i as int].0, m@[i as int].1);
                    assert(m@.subrange(0, i + 1) =~= pre.push(m@[i as int]));
                    let vs = json_fields_view(m@.subrange(0, i + 1));
                    assert(vs.drop_last() =~= json_fields_view(pre));
                }
                out.push((k, x));
                i = i + 1;
            }
            assert(m@.subrange(0, i as int) =~= m@);
            Ok(Json::Object(out))
        },
        Json::Null => Ok(Json::Null),
        Json::Bool(b) => Ok(Json::Bool(*b)),
        Json::Number(n) => Ok(Json::Number(n.clone())),
    }
}

/// An error in an item makes the items' resolution that error, when the items
/// before it resolve.
proof fn lemma_items_err(a: Seq<Json>, i: int, ctx: CtxV)
    requires
        0 <= i < a.len(),
        resolve_items(json_seq_view(a.subrange(0, i)), ctx) is Ok,
        resolve_value(crate::json::json_view(a[i]), ctx) is Err,
    ensures
        resolve_items(json_seq_view(a), ctx) == Err::<Seq<JsonV>, Seq<char>>(
            resolve_value(crate::json::json_view(a[i]), ctx)->Err_0,
        ),
    decreases a.len() - i,
{
    let sv = json_seq_view(a);
    assert(sv.drop_last() =~= json_seq_view(a.drop_last()));
    assert(sv.last() == crate::json::json_view(a.last()));
    if i == a.len() - 1 {
        assert(a.drop_last() =~= a.subrange(0, i));
        assert(a.last() == a[i]);
    } else {
        assert(a.drop_last().subrange(0, i) =~= a.subrange(0, i));
        assert(a.drop_last()[i] == a[i]);
        lemma_items_err(a.drop_last(), i, ctx);
    }
}

/// An error in a field makes the fields' resolution that error, when the
/// fields before it resolve.
proof fn lemma_fields_err(m: Seq<(String, Json)>, i: int, ctx: CtxV)
    requires
        0 <= i < m.len(),
        resolve_fields(json_fields_view(m.subrange(0, i)), ctx) is Ok,
        resolve_value(crate::json::json_view(m[i].1), ctx) is Err,
    ensures
        resolve_fields(json_fields_view(m), ctx) == Err::<Seq<(Seq<char>, JsonV)>, Seq<char>>(
            resolve_value(crate::json::json_view(m[i].1), ctx)->Err_0,
        ),
    decreases m.len() - i,
{
    let fv = json_fields_view(m);
    assert(fv.drop_last() =~= json_fields_view(m.drop_last()));
    assert(fv.last() == (m.last().0@, crate::json::json_view(m.last().1)));
    if i == m.len() - 1 {
        assert(m.drop_last() =~= m.subrange(0, i));
        assert(m.last() == m[i]);
    } else {
        assert(m.drop_last().subrange(0, i) =~= m.subrange(0, i));
        assert(m.drop_last()[i] == m[i]);
        lemma_fields_err(m.drop_last(), i, ctx);
    }
}

// ---------------------------------------------------------------------------
// Conditions
// ---------------------------------------------------------------------------

/// The truth of a `when` condition: a boolean value itself; otherwise the
/// lower-cased string (or the JSON text of another value) read as `true`,
/// `1`, `yes` or as `false`, `0`, `no`, empty. Anything else is an error.
pub open spec fn when_value(expr: Seq<char>, ctx: CtxV) -> Result<bool, Seq<char>> {
    match resolve_text(expr, ctx) {
        Err(e) => Err(e),
        Ok(JsonV::Bool(b)) => Ok(b),
        Ok(v) => {
            let s = match v {
                JsonV::Str(t) => lower(t),
                _ => json_text(v),
            };
            if s == "true"@ || s == "1"@ || s == "yes"@ {
                Ok(true)
            } else if s == "false"@ || s == "0"@ || s == "no"@ || s.len() == 0 {
                Ok(false)
            } else {
                Err("cannot evaluate '"@ + s + "' as boolean"@)
            }
        },
    }
}

/// A condition that resolves to a string is read without regard to case:
/// two conditions whose strings are the same once lower-cased decide alike.
pub proof fn law_when_ignores_case(e1: Seq<char>, e2: Seq<char>, ctx: CtxV, t1: Seq<char>, t2: Seq<char>)
    requires
        resolve_text(e1, ctx) == Ok::<JsonV, Seq<char>>(JsonV::Str(t1)),
        resolve_text(e2, ctx) == Ok::<JsonV, Seq<char>>(JsonV::Str(t2)),
        lower(t1) == lower(t2),
    ensures
        when_value(e1, ctx) == when_value(e2, ctx),
{
}

/// Evaluates a `when` condition.
pub fn evaluate_when(expr: &str, ctx: &TemplateContext) -> (r: Result<bool, CoreError>)
    requires
        ctx.wf(),
    ensures
        match r {
            Ok(b) => when_value(expr@, ctx@) == Ok::<bool, Seq<char>>(b),
            Err(CoreError::Template(m)) => when_value(expr@, ctx@) == Err::<bool, Seq<char>>(m@),
            Err(_) => false,
        },
{
    let resolved = match resolve_string(expr, ctx) {
        Ok(v) => v,
        Err(e) => {
            return Err(e);
        },
    };
    let s = match &resolved {
        Json::Bool(b) => {
            return Ok(*b);
        },
        Json::Str(t) => to_lowercase(t.as_str()),
        _ => to_json_text(&resolved),
    };
    let ss = s.as_str();
    if str_eq(ss, "true") || str_eq(ss, "1") || str_eq(ss, "yes") {
        Ok(true)
    } else if str_eq(ss, "false") || str_eq(ss, "0") || str_eq(ss, "no") || ss.is_empty() {
        Ok(false)
    } else {
        let mut m = concat("cannot evaluate '", ss);
        m.append("' as boolean");
        Err(CoreError::Template(m))
    }
}

} // verus!
