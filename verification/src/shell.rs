use vstd::prelude::*;
use crate::text::{chars_string, str_chars};

verus! {

/// The part of a path after its last `/` (all of it when there is none).
pub open spec fn last_component(path: Seq<char>) -> Seq<char>
    decreases path.len(),
{
    if path.len() == 0 {
        path
    } else if path.last() == '/' {
        Seq::empty()
    } else {
        last_component(path.drop_last()).push(path.last())
    }
}

/// The name a login shell is started under: `-` and the shell's file name.
pub open spec fn login_name_spec(shell: Seq<char>) -> Seq<char> {
    seq!['-'] + last_component(shell)
}

/// The name of the variable that selects the terminal type.
pub open spec fn term_key() -> Seq<char> {
    seq!['T', 'E', 'R', 'M']
}

/// The name of the variable that tells the shell-integration script it runs
/// inside Zenith.
pub open spec fn integration_key() -> Seq<char> {
    seq![
        'Z', 'E', 'N', 'I', 'T', 'H', '_', 'S', 'H', 'E', 'L', 'L', '_', 'I', 'N', 'T', 'E', 'G', 'R', 'A',
        'T', 'I', 'O', 'N',
    ]
}

/// An environment entry `key=value`.
pub open spec fn env_entry(key: Seq<char>, value: Seq<char>) -> Seq<char> {
    key + seq!['='] + value
}

/// Whether a variable of the parent is passed on to the shell: not one of
/// the two that the terminal sets itself, and without a NUL character,
/// which an environment entry cannot hold.
pub open spec fn passed_on(key: Seq<char>, value: Seq<char>) -> bool {
    &&& key != term_key()
    &&& key != integration_key()
    &&& !env_entry(key, value).contains('\0')
}

/// The entries for the variables of `vars` that are passed on, in order.
pub open spec fn passed_entries(vars: Seq<(Seq<char>, Seq<char>)>) -> Seq<Seq<char>>
    decreases vars.len(),
{
    if vars.len() == 0 {
        Seq::empty()
    } else {
        let rest = passed_entries(vars.drop_last());
        let (k, v) = vars.last();
        if passed_on(k, v) {
            rest.push(env_entry(k, v))
        } else {
            rest
        }
    }
}

/// The environment of the shell: the variables passed on, then
/// `TERM=xterm-256color` and `ZENITH_SHELL_INTEGRATION=1`.
pub open spec fn shell_environment_spec(vars: Seq<(Seq<char>, Seq<char>)>) -> Seq<Seq<char>> {
    passed_entries(vars).push(
        env_entry(
            term_key(),
            seq!['x', 't', 'e', 'r', 'm', '-', '2', '5', '6', 'c', 'o', 'l', 'o', 'r'],
        ),
    ).push(env_entry(integration_key(), seq!['1']))
}

/// The name a login shell at path `shell` is started under (see
/// [`login_name_spec`]).
pub fn login_name(shell: &str) -> (s: String)
    ensures
        s@ == login_name_spec(shell@),
{
    let path = str_chars(shell);
    let mut start: usize = 0;
    let mut i: usize = 0;
    while i < path.len()
        invariant
            i <= path@.len(),
            start <= i,
            path@.subrange(start as int, i as int) == last_component(path@.subrange(0, i as int)),
        decreases path@.len() - i,
    {
        proof {
            assert(path@.subrange(0, i + 1).drop_last() =~= path@.subrange(0, i as int));
        }
        if path[i] == '/' {
            start = i + 1;
            proof {
                assert(path@.subrange(start as int, i + 1) =~= Seq::<char>::empty());
            }
        } else {
            proof {
                assert(path@.subrange(start as int, i + 1) =~= path@.subrange(start as int, i as int).push(
                    path@[i as int],
                ));
            }
        }
        i = i + 1;
    }
    let mut name: Vec<char> = vec!['-'];
    let mut j: usize = start;
    while j < path.len()
        invariant
            start <= j <= path@.len(),
            name@ == seq!['-'] + path@.subrange(start as int, j as int),
        decreases path@.len() - j,
    {
        name.push(path[j]);
        j = j + 1;
        proof {
            assert(name@ =~= seq!['-'] + path@.subrange(start as int, j as int));
        }
    }
    proof {
        assert(path@.subrange(0, path@.len() as int) =~= path@);
    }
    chars_string(&name)
}

/// Whether two character sequences are equal.
fn chars_equal(a: &Vec<char>, b: &Vec<char>) -> (r: bool)
    ensures
        r == (a@ == b@),
{
    if a.len() != b.len() {
        return false;
    }
    let mut i: usize = 0;
    while i < a.len()
        invariant
            a@.len() == b@.len(),
            i <= a@.len(),
            forall|k: int| 0 <= k < i ==> a@[k] == b@[k],
        decreases a@.len() - i,
    {
        if a[i] != b[i] {
            return false;
        }
        i = i + 1;
    }
    assert(a@ =~= b@);
    true
}

/// `key=value` as characters.
fn entry_chars(key: &Vec<char>, value: &Vec<char>) -> (e: Vec<char>)
    ensures
        e@ == env_entry(key@, value@),
{
    let mut e = key.clone();
    proof {
        assert(e@ =~= key@);
    }
    e.push('=');
    let mut i: usize = 0;
    while i < value.len()
        invariant
            i <= value@.len(),
            e@ == key@ + seq!['='] + value@.subrange(0, i as int),
        decreases value@.len() - i,
    {
        e.push(value[i]);
        i = i + 1;
        proof {
            assert(e@ =~= key@ + seq!['='] + value@.subrange(0, i as int));
        }
    }
    assert(value@.subrange(0, i as int) =~= value@);
    e
}

/// The environment a shell is started with, from the terminal's own
/// variables `vars` (see [`shell_environment_spec`]).
pub fn shell_environment(vars: &Vec<(String, String)>) -> (env: Vec<String>)
    ensures
        env@.map_values(|e: String| e@) == shell_environment_spec(vars@.map_values(|p: (String, String)| (p.0@, p.1@))),
{
    let ghost vs = vars@.map_values(|p: (String, String)| (p.0@, p.1@));
    let term: Vec<char> = vec!['T', 'E', 'R', 'M'];
    let integration: Vec<char> = vec![
        'Z', 'E', 'N', 'I', 'T', 'H', '_', 'S', 'H', 'E', 'L', 'L', '_', 'I', 'N', 'T', 'E', 'G', 'R', 'A',
        'T', 'I', 'O', 'N',
    ];
    assert(term@ =~= term_key());
    assert(integration@ =~= integration_key());
    let mut env: Vec<String> = Vec::new();
    let mut i: usize = 0;
    while i < vars.len()
        invariant
            i <= vars@.len(),
            vs == vars@.map_values(|p: (String, String)| (p.0@, p.1@)),
            term@ == term_key(),
            integration@ == integration_key(),
            env@.map_values(|e: String| e@) == passed_entries(vs.subrange(0, i as int)),
        decreases vars@.len() - i,
    {
        let key = str_chars(vars[i].0.as_str());
        let value = str_chars(vars[i].1.as_str());
        let entry = entry_chars(&key, &value);
        let mut has_nul = false;
        let mut j: usize = 0;
        while j < entry.len()
            invariant
                j <= entry@.len(),
                has_nul == (exists|k: int| 0 <= k < j && entry@[k] == '\0'),
            decreases entry@.len() - j,
        {
            if entry[j] == '\0' {
                has_nul = true;
            }
            j = j + 1;
        }
        let ghost before = env@.map_values(|e: String| e@);
        proof {
            assert(vs[i as int] == (key@, value@));
            assert(vs.subrange(0, i + 1).drop_last() =~= vs.subrange(0, i as int));
            assert(has_nul == entry@.contains('\0'));
        }
        if !chars_equal(&key, &term) && !chars_equal(&key, &integration) && !has_nul {
            env.push(chars_string(&entry));
            proof {
                assert(env@.map_values(|e: String| e@) =~= before.push(entry@));
            }
        }
        i = i + 1;
    }
    proof {
        assert(vs.subrange(0, i as int) =~= vs);
    }
    let ghost before = env@.map_values(|e: String| e@);
    let term_value: Vec<char> = vec!['x', 't', 'e', 'r', 'm', '-', '2', '5', '6', 'c', 'o', 'l', 'o', 'r'];
    env.push(chars_string(&entry_chars(&term, &term_value)));
    let ghost mid = env@.map_values(|e: String| e@);
    assert(mid =~= before.push(env_entry(term_key(), term_value@)));
    let one: Vec<char> = vec!['1'];
    env.push(chars_string(&entry_chars(&integration, &one)));
    assert(env@.map_values(|e: String| e@) =~= mid.push(env_entry(integration_key(), one@)));
    assert(term_value@ =~= seq!['x', 't', 'e', 'r', 'm', '-', '2', '5', '6', 'c', 'o', 'l', 'o', 'r']);
    assert(one@ =~= seq!['1']);
    env
}

proof fn lemma_last_component(path: Seq<char>)
    ensures
        last_component(path).len() <= path.len(),
        last_component(path) == path.skip(path.len() - last_component(path).len()),
        !last_component(path).contains('/'),
        last_component(path).len() == path.len() || path[path.len() - last_component(path).len() - 1] == '/',
    decreases path.len(),
{
    if path.len() > 0 {
        if path.last() == '/' {
            assert(path.skip(path.len() as int) =~= Seq::<char>::empty());
        } else {
            let init = path.drop_last();
            lemma_last_component(init);
            let l = last_component(init);
            assert(l.push(path.last()) =~= path.skip(path.len() - l.len() - 1)) by {
                assert forall|k: int| 0 <= k < l.len() implies l[k] == path[path.len() - l.len() - 1 + k] by {
                    assert(l[k] == init.skip(init.len() - l.len())[k]);
                }
            }
            if l.len() < init.len() {
                assert(path[path.len() - l.len() - 2] == init[init.len() - l.len() - 1]);
            }
            assert forall|k: int| 0 <= k < l.push(path.last()).len() implies l.push(path.last())[k] != '/' by {
                if k < l.len() {
                    assert(!l.contains('/'));
                    assert(l[k] != '/');
                }
            }
        }
    } else {
        assert(path.skip(0) =~= path);
    }
}

/// A login shell is named `-` and the shell's file name: the end of its
/// path after the last `/`, which itself holds no `/`.
pub proof fn law_login_name(path: Seq<char>)
    ensures
        login_name_spec(path)[0] == '-',
        ({
            let name = login_name_spec(path).drop_first();
            &&& name == path.skip(path.len() - name.len())
            &&& !name.contains('/')
            &&& name.len() == path.len() || path[path.len() - name.len() - 1] == '/'
        }),
{
    lemma_last_component(path);
    assert(login_name_spec(path).drop_first() =~= last_component(path));
}

/// Whether `e` is the entry `key=value` of a variable of `vars` that is
/// passed on: its key is neither `TERM` nor `ZENITH_SHELL_INTEGRATION`, and
/// the entry holds no NUL character.
pub open spec fn is_passed_entry(vars: Seq<(Seq<char>, Seq<char>)>, e: Seq<char>) -> bool {
    exists|j: int|
        0 <= j < vars.len() && vars[j].0 != term_key() && vars[j].0 != integration_key() && !env_entry(
            vars[j].0,
            vars[j].1,
        ).contains('\0') && e == #[trigger] env_entry(vars[j].0, vars[j].1)
}

proof fn lemma_passed_entries(vars: Seq<(Seq<char>, Seq<char>)>)
    ensures
        forall|i: int|
            0 <= i < passed_entries(vars).len() ==> is_passed_entry(vars, #[trigger] passed_entries(vars)[i]),
        forall|j: int|
            0 <= j < vars.len() && passed_on(#[trigger] vars[j].0, vars[j].1) ==> passed_entries(vars).contains(
                env_entry(vars[j].0, vars[j].1),
            ),
    decreases vars.len(),
{
    if vars.len() > 0 {
        let init = vars.drop_last();
        lemma_passed_entries(init);
        let rest = passed_entries(init);
        let p = passed_entries(vars);
        assert forall|i: int| 0 <= i < p.len() implies is_passed_entry(vars, #[trigger] p[i]) by {
            if i < rest.len() {
                assert(p[i] == rest[i]);
                assert(is_passed_entry(init, rest[i]));
                let j = choose|j: int|
                    0 <= j < init.len() && init[j].0 != term_key() && init[j].0 != integration_key()
                        && !env_entry(init[j].0, init[j].1).contains('\0') && rest[i] == #[trigger] env_entry(
                        init[j].0,
                        init[j].1,
                    );
                assert(vars[j] == init[j]);
            } else {
                let j = vars.len() - 1;
                assert(vars[j] == vars.last());
                assert(p[i] == env_entry(vars[j].0, vars[j].1));
            }
        }
        assert forall|j: int| 0 <= j < vars.len() && passed_on(#[trigger] vars[j].0, vars[j].1) implies p.contains(
            env_entry(vars[j].0, vars[j].1),
        ) by {
            if j < init.len() {
                assert(vars[j] == init[j]);
                let k = choose|k: int| 0 <= k < rest.len() && rest[k] == env_entry(init[j].0, init[j].1);
                assert(p[k] == rest[k]);
            } else {
                assert(p[p.len() - 1] == env_entry(vars[j].0, vars[j].1));
            }
        }
    }
}

/// The shell's environment ends with `TERM=xterm-256color` and
/// `ZENITH_SHELL_INTEGRATION=1`; before them stand, as `key=value`, exactly
/// the parent's variables other than those two and without a NUL
/// character: every entry is one of them, and each of them is there.
pub proof fn law_shell_environment(vars: Seq<(Seq<char>, Seq<char>)>)
    ensures
        shell_environment_spec(vars).len() >= 2,
        shell_environment_spec(vars)[shell_environment_spec(vars).len() - 2] == seq![
            'T', 'E', 'R', 'M', '=', 'x', 't', 'e', 'r', 'm', '-', '2', '5', '6', 'c', 'o', 'l', 'o', 'r',
        ],
        shell_environment_spec(vars)[shell_environment_spec(vars).len() - 1] == integration_key() + seq!['=', '1'],
        forall|i: int|
            0 <= i < shell_environment_spec(vars).len() - 2 ==> is_passed_entry(
                vars,
                #[trigger] shell_environment_spec(vars)[i],
            ),
        forall|j: int|
            0 <= j < vars.len() && #[trigger] vars[j].0 != term_key() && vars[j].0 != integration_key()
                && !env_entry(vars[j].0, vars[j].1).contains('\0') ==> shell_environment_spec(vars).subrange(
                0,
                shell_environment_spec(vars).len() - 2,
            ).contains(env_entry(vars[j].0, vars[j].1)),
{
    lemma_passed_entries(vars);
    let p = passed_entries(vars);
    assert(shell_environment_spec(vars).subrange(0, shell_environment_spec(vars).len() - 2) =~= p);
    assert(shell_environment_spec(vars)[shell_environment_spec(vars).len() - 2] =~= seq![
        'T', 'E', 'R', 'M', '=', 'x', 't', 'e', 'r', 'm', '-', '2', '5', '6', 'c', 'o', 'l', 'o', 'r',
    ]);
    assert(shell_environment_spec(vars)[shell_environment_spec(vars).len() - 1] =~= integration_key() + seq![
        '=',
        '1',
    ]);
    assert forall|i: int| 0 <= i < shell_environment_spec(vars).len() - 2 implies is_passed_entry(
        vars,
        #[trigger] shell_environment_spec(vars)[i],
    ) by {
        assert(shell_environment_spec(vars)[i] == p[i]);
    }
    assert forall|j: int|
        0 <= j < vars.len() && #[trigger] vars[j].0 != term_key() && vars[j].0 != integration_key()
            && !env_entry(vars[j].0, vars[j].1).contains('\0') implies shell_environment_spec(vars).subrange(
        0,
        shell_environment_spec(vars).len() - 2,
    ).contains(env_entry(vars[j].0, vars[j].1)) by {
        assert(passed_on(vars[j].0, vars[j].1));
        assert(p.contains(env_entry(vars[j].0, vars[j].1)));
    }
}

} // verus!
