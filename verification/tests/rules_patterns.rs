use debian_analyzer::rules::{
    dh_invoke_add_with, dh_invoke_drop_argument, dh_invoke_drop_with, dh_invoke_get_with,
    dh_invoke_replace_argument,
};

fn add_with_by_pattern(line: &str, with_argument: &str) -> String {
    if line.contains(with_argument) {
        return line.to_owned();
    }
    let re = regex::Regex::new(r"([ \t]--with[ =])([^ \t]+)").unwrap();
    if !re.is_match(line) {
        return format!("{} --with={}", line, with_argument);
    }
    re.replace(line, |caps: &regex::Captures| {
        format!("{}{},{}", &caps[1], with_argument, &caps[2])
    })
    .to_string()
}

fn get_with_by_pattern(line: &str) -> Vec<String> {
    let mut ret = Vec::new();
    let re = regex::Regex::new("[ \t]--with[ =]([^ \t]+)").unwrap();
    for cap in re.captures_iter(line) {
        if let Some(m) = cap.get(1) {
            ret.extend(m.as_str().split(',').map(|s| s.to_owned()));
        }
    }
    ret
}

fn drop_with_by_pattern(line: &str, with_argument: &str) -> String {
    if !line.contains(with_argument) {
        return line.to_owned();
    }
    let mut result = line.to_owned();
    let escaped = regex::escape(with_argument);
    if let Ok(re) = regex::Regex::new(&format!(r"[ \t]--with[ =]{}( .+|)$", escaped)) {
        result = re.replace(&result, "$1").to_string();
    }
    if let Ok(re) = regex::Regex::new(&format!(r"([ \t])--with([ =]){},", escaped)) {
        result = re.replace(&result, "${1}--with${2}").to_string();
    }
    if let Ok(re) = regex::Regex::new(&format!(r"([ \t])--with([ =])(.+),{}([ ,])", escaped)) {
        result = re.replace(&result, "${1}--with${2}${3}${4}").to_string();
    }
    if let Ok(re) = regex::Regex::new(&format!(r"([ \t])--with([ =])(.+),{}$", escaped)) {
        result = re.replace(&result, "${1}--with${2}${3}").to_string();
    }
    result
}

fn drop_argument_by_pattern(line: &str, argument: &str) -> String {
    if !line.contains(argument) {
        return line.to_owned();
    }
    let mut result = line.to_owned();
    let escaped = regex::escape(argument);
    if let Ok(re) = regex::Regex::new(&format!(r"[ \t]+{}$", escaped)) {
        result = re.replace(&result, "").to_string();
    }
    if let Ok(re) = regex::Regex::new(&format!(r"([ \t]){}[ \t]", escaped)) {
        result = re.replace(&result, "$1").to_string();
    }
    result
}

fn replace_argument_by_pattern(line: &str, old: &str, new: &str) -> String {
    if !line.contains(old) {
        return line.to_owned();
    }
    let mut result = line.to_owned();
    let escaped = regex::escape(old);
    if let Ok(re) = regex::Regex::new(&format!(r"([ \t]){}$", escaped)) {
        result = re
            .replace(&result, regex::NoExpand(&format!("\u{1}{}", new)))
            .to_string();
        if let Some(at) = result.find('\u{1}') {
            let head = line[..line.len() - old.len()].to_owned();
            result = format!("{}{}", head, &result[at + 1..]);
        }
    }
    if let Ok(re) = regex::Regex::new(&format!(r"([ \t]){}([ \t])", escaped)) {
        let found = re.captures(&result).map(|c| {
            (
                c.get(0).unwrap().start(),
                c.get(0).unwrap().end(),
                c[1].to_owned(),
                c[2].to_owned(),
            )
        });
        if let Some((start, end, head, tail)) = found {
            result = format!(
                "{}{}{}{}{}",
                &result[..start],
                head,
                new,
                tail,
                &result[end..]
            );
        }
    }
    result
}

fn lines() -> Vec<&'static str> {
    vec![
        "",
        "dh",
        "dh $@",
        "dh --with=blah",
        "dh --with=blah,foo",
        "dh --with=foo,blah",
        "dh --with=foo,blah,bar",
        "dh --with=blah --foo",
        "dh --with blah",
        "dh --with blah,foo --other",
        "dh\t--with=blah",
        "dh\t--with\tblah",
        "dh --with=blah --with=foo",
        "dh --with=a,blah --with=blah,b",
        "dh --with=blah,blah",
        "dh --with=blah,blah,blah x",
        "dh --with= blah",
        "dh --with",
        "dh --with ",
        "dh --with=",
        "dh --without blah",
        "dh --without=blah --with=foo",
        "dh $@ --verbose --with autoreconf,systemd,cme-upgrade",
        "dh $@ --with gir,python3,sphinxdoc,systemd --without autoreconf --buildsystem=cmake",
        "dh $@ --with systemd",
        "dh $@ --with systemd ",
        "dh $@ --with systemd  x",
        "dh $@ --with systemd\n",
        "dh $@ --with systemd x\ny",
        "dh $@ --with a,systemd\n",
        "dh $@ --with a\n,systemd x",
        "dh $@ --with a,systemd,b\nmore --with c,systemd",
        "dh $@ --foo --bar",
        "dh $@ --foo",
        "dh $@ --foo  --bar",
        "dh $@\t--foo\t--bar",
        "dh $@ --foo --foo --foo",
        "dh $@ --foobar --foo",
        "dh $@ x--foo --foo=1",
        "--foo",
        " --foo",
        "  \t --foo",
        " --foo ",
        "dh --with=sphinxdoc,systemd, --x",
        "dh --with=blah,foo,blah,foo",
        "dh --with=$1,blah",
        "dh --with=a.b,a+b",
        "dh --with=été,blah",
        "--with=blah",
        " --with=blah",
        " --with=blah,",
        " --with=,blah",
        " --with=,",
        "\t--with=a --with=a,b",
    ]
}

fn arguments() -> Vec<&'static str> {
    vec![
        "blah", "foo", "systemd", "a", "b", "--foo", "--bar", "a.b", "a+b", "$1", "été", ",",
        "blah,foo", "with", " ", "", "dh", "=", "--with", "x",
    ]
}

#[test]
fn add_with_agrees_with_the_pattern() {
    for line in lines() {
        for arg in arguments() {
            assert_eq!(
                dh_invoke_add_with(line, arg),
                add_with_by_pattern(line, arg),
                "add {:?} to {:?}",
                arg,
                line
            );
        }
    }
}

#[test]
fn get_with_agrees_with_the_pattern() {
    for line in lines() {
        assert_eq!(
            dh_invoke_get_with(line),
            get_with_by_pattern(line),
            "values of {:?}",
            line
        );
    }
}

#[test]
fn drop_with_agrees_with_the_pattern() {
    for line in lines() {
        for arg in arguments() {
            assert_eq!(
                dh_invoke_drop_with(line, arg),
                drop_with_by_pattern(line, arg),
                "drop {:?} from {:?}",
                arg,
                line
            );
        }
    }
}

#[test]
fn drop_argument_agrees_with_the_pattern() {
    for line in lines() {
        for arg in arguments() {
            assert_eq!(
                dh_invoke_drop_argument(line, arg),
                drop_argument_by_pattern(line, arg),
                "drop {:?} from {:?}",
                arg,
                line
            );
        }
    }
}

#[test]
fn replace_argument_agrees_with_the_pattern() {
    for line in lines() {
        for old in arguments() {
            for new in ["--new", "new", "", "$2", "--a b"] {
                assert_eq!(
                    dh_invoke_replace_argument(line, old, new),
                    replace_argument_by_pattern(line, old, new),
                    "replace {:?} by {:?} in {:?}",
                    old,
                    new,
                    line
                );
            }
        }
    }
}

#[test]
fn add_with_twice_is_add_with_once() {
    for line in lines() {
        for arg in arguments() {
            let once = dh_invoke_add_with(line, arg);
            assert_eq!(dh_invoke_add_with(&once, arg), once);
        }
    }
}

#[test]
fn drop_with_undoes_add_with() {
    for line in lines() {
        for arg in [
            "blah", "foo", "systemd", "a", "a.b", "été", "--foo", "x", "$1", "x,y", ",", "x\ty",
        ] {
            if line.contains(arg) {
                continue;
            }
            assert_eq!(
                dh_invoke_drop_with(&dh_invoke_add_with(line, arg), arg),
                line,
                "add and drop {:?} in {:?}",
                arg,
                line
            );
        }
    }
}

#[test]
fn add_with_keeps_the_joiner_of_the_flag() {
    assert_eq!(dh_invoke_add_with("dh --with bar", "foo"), "dh --with foo,bar");
    assert_eq!(dh_invoke_drop_with("dh --with foo,bar", "foo"), "dh --with bar");
    assert_eq!(dh_invoke_add_with("dh --with=bar", "foo"), "dh --with=foo,bar");
    assert_eq!(dh_invoke_add_with("dh\t--with\tbar x", "foo"), "dh\t--with\tbar x --with=foo");
    assert_eq!(
        dh_invoke_add_with("dh\t--with bar --with=baz", "foo"),
        "dh\t--with foo,bar --with=baz"
    );
}

#[test]
fn add_with_appends_where_no_flag_has_a_value() {
    assert_eq!(
        dh_invoke_add_with("dh $@ --without autoreconf", "python3"),
        "dh $@ --without autoreconf --with=python3"
    );
    assert_eq!(
        dh_invoke_drop_with("dh $@ --without autoreconf --with=python3", "python3"),
        "dh $@ --without autoreconf"
    );
    assert_eq!(dh_invoke_add_with("dh --with", "foo"), "dh --with --with=foo");
    assert_eq!(dh_invoke_add_with("dh --with= x", "foo"), "dh --with= x --with=foo");
    assert_eq!(dh_invoke_add_with("--with=a", "foo"), "--with=a --with=foo");
    assert_eq!(dh_invoke_add_with("", "foo"), " --with=foo");
}

#[test]
fn add_with_leaves_a_line_that_holds_the_name() {
    assert_eq!(dh_invoke_add_with("dh --with=foobar", "foo"), "dh --with=foobar");
    assert_eq!(dh_invoke_add_with("dh --buildsystem=foo", "foo"), "dh --buildsystem=foo");
}

#[test]
fn get_with_reads_every_flag() {
    assert_eq!(
        dh_invoke_get_with("dh --with=a,b --other --with c\t--with=d,,e"),
        vec!["a", "b", "c", "d", "", "e"]
    );
    assert_eq!(dh_invoke_get_with("--with=a"), Vec::<String>::new());
    assert_eq!(dh_invoke_get_with("dh --with= a"), Vec::<String>::new());
    assert_eq!(dh_invoke_get_with("dh --with=,"), vec!["", ""]);
}

#[test]
fn whole_flags_only() {
    assert_eq!(
        dh_invoke_drop_argument("dh $@ --foobar --foo", "--foo"),
        "dh $@ --foobar"
    );
    assert_eq!(
        dh_invoke_drop_argument("dh $@ --foobar", "--foo"),
        "dh $@ --foobar"
    );
    assert_eq!(
        dh_invoke_replace_argument("dh $@ --foobar x--foo", "--foo", "--bar"),
        "dh $@ --foobar x--foo"
    );
    assert_eq!(
        dh_invoke_replace_argument("dh $@ --foo --foo", "--foo", "--bar"),
        "dh $@ --bar --bar"
    );
    assert_eq!(
        dh_invoke_replace_argument("dh $@ --foo x", "--foo", "bar"),
        "dh $@ bar x"
    );
}

struct Dice(u64);

impl Dice {
    fn roll(&mut self, sides: usize) -> usize {
        self.0 = self
            .0
            .wrapping_mul(6364136223846793005)
            .wrapping_add(1442695040888963407);
        ((self.0 >> 33) as usize) % sides
    }

    fn text(&mut self, pieces: &[&str], most: usize) -> String {
        let n = self.roll(most + 1);
        let mut out = String::new();
        for _ in 0..n {
            out.push_str(pieces[self.roll(pieces.len())]);
        }
        out
    }
}

const LINE_PIECES: [&str; 16] = [
    " ", "\t", " --with", "--with", "=", ",", "a", "b", "ab", "\n", " --with=", " --with ", "-", "x",
    " --with=a", ",a",
];

const ARGUMENT_PIECES: [&str; 8] = ["a", "b", "ab", ",", " ", "-", "=", "--with"];

fn compare_with_functions(seed: u64) {
    let mut dice = Dice(seed);
    for _ in 0..250 {
        let line = dice.text(&LINE_PIECES, 8);
        let arg = dice.text(&ARGUMENT_PIECES, 2);
        assert_eq!(
            dh_invoke_add_with(&line, &arg),
            add_with_by_pattern(&line, &arg),
            "add {:?} to {:?}",
            arg,
            line
        );
        assert_eq!(
            dh_invoke_drop_with(&line, &arg),
            drop_with_by_pattern(&line, &arg),
            "drop {:?} from {:?}",
            arg,
            line
        );
        assert_eq!(
            dh_invoke_get_with(&line),
            get_with_by_pattern(&line),
            "values of {:?}",
            line
        );
    }
}

#[test]
fn with_functions_agree_with_the_patterns_on_many_lines() {
    compare_with_functions(1);
}

#[test]
fn with_functions_agree_with_the_patterns_on_more_lines() {
    compare_with_functions(11);
}

#[test]
fn with_functions_agree_with_the_patterns_on_yet_more_lines() {
    compare_with_functions(111);
}

fn compare_argument_functions(seed: u64) {
    let mut dice = Dice(seed);
    for _ in 0..250 {
        let line = dice.text(&LINE_PIECES, 8);
        let arg = dice.text(&ARGUMENT_PIECES, 2);
        let new = dice.text(&ARGUMENT_PIECES, 2);
        assert_eq!(
            dh_invoke_drop_argument(&line, &arg),
            drop_argument_by_pattern(&line, &arg),
            "drop {:?} from {:?}",
            arg,
            line
        );
        assert_eq!(
            dh_invoke_replace_argument(&line, &arg, &new),
            replace_argument_by_pattern(&line, &arg, &new),
            "replace {:?} by {:?} in {:?}",
            arg,
            new,
            line
        );
    }
}

#[test]
fn argument_functions_agree_with_the_patterns_on_many_lines() {
    compare_argument_functions(2);
}

#[test]
fn argument_functions_agree_with_the_patterns_on_more_lines() {
    compare_argument_functions(22);
}

#[test]
fn drop_with_undoes_add_with_on_many_lines() {
    let mut dice = Dice(3);
    let mut tried = 0;
    for _ in 0..6000 {
        let line = dice.text(&LINE_PIECES, 8);
        let arg = dice.text(&["a", "b", "ab", "-", "=", "--with", "x", ",", "a,"], 2);
        if line.contains(&arg) {
            continue;
        }
        tried += 1;
        assert_eq!(
            dh_invoke_drop_with(&dh_invoke_add_with(&line, &arg), &arg),
            line,
            "add and drop {:?} in {:?}",
            arg,
            line
        );
    }
    assert!(tried > 1000);
}

#[test]
fn drop_with_does_not_undo_add_with_of_every_name_with_blanks() {
    let line = "dh --with=  --with=b";
    let name = "  --with= ";
    assert!(!line.contains(name));
    let added = dh_invoke_add_with(line, name);
    assert_eq!(added, "dh --with=  --with=  --with= ,b");
    assert_eq!(dh_invoke_drop_with(&added, name), "dh --with= ,b");
    assert_eq!(dh_invoke_drop_with(&added, name), drop_with_by_pattern(&added, name));

    let line = "dh\t--with=\t,\t--with=b";
    let name = "\t,\t--with=\t";
    assert!(!line.contains(name));
    let added = dh_invoke_add_with(line, name);
    assert_eq!(added, "dh\t--with=\t,\t--with=\t,\t--with=\t,b");
    assert_eq!(dh_invoke_drop_with(&added, name), "dh\t--with=\t--with=\t,b");
    assert_eq!(dh_invoke_drop_with(&added, name), drop_with_by_pattern(&added, name));
}
