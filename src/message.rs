use vstd::prelude::*;

verus! {

/// Separators between the words of a protocol line.
pub open spec fn is_space(c: char) -> bool {
    c == ' ' || c == '\t' || c == '\n' || c == '\r' || c == '\x0b' || c == '\x0c'
}

/// The state of a left-to-right scan of `s`: the words already closed, and
/// the word being read (empty between words).
pub open spec fn scan(s: Seq<char>) -> (Seq<Seq<char>>, Seq<char>)
    decreases s.len(),
{
    if s.len() == 0 {
        (Seq::empty(), Seq::empty())
    } else {
        let prev = scan(s.drop_last());
        let c = s.last();
        if !is_space(c) {
            (prev.0, prev.1.push(c))
        } else if prev.1.len() > 0 {
            (prev.0.push(prev.1), Seq::empty())
        } else {
            (prev.0, Seq::empty())
        }
    }
}

/// The maximal runs of non-separator characters of `s`, in order.
pub open spec fn tokens(s: Seq<char>) -> Seq<Seq<char>> {
    let st = scan(s);
    if st.1.len() > 0 {
        st.0.push(st.1)
    } else {
        st.0
    }
}

/// The contents of a vector of words.
pub open spec fn words_view(v: Seq<Vec<char>>) -> Seq<Seq<char>> {
    v.map_values(|w: Vec<char>| w@)
}

/// The characters of `s`, in order.
pub fn chars_of(s: &str) -> (r: Vec<char>)
    ensures
        r@ == s@,
{
    let mut r: Vec<char> = Vec::new();
    for c in it: s.chars()
        invariant
            r@ == it.seq().take(it.index() as int),
    {
        r.push(c);
    }
    r
}

/// Splits `s` into its words.
pub fn split_words(s: &Vec<char>) -> (r: Vec<Vec<char>>)
    ensures
        words_view(r@) == tokens(s@),
{
    let mut done: Vec<Vec<char>> = Vec::new();
    let mut cur: Vec<char> = Vec::new();
    let mut i: usize = 0;
    while i < s.len()
        invariant
            i <= s.len(),
            (words_view(done@), cur@) == scan(s@.take(i as int)),
        decreases s.len() - i,
    {
        let c = s[i];
        assert(s@.take(i + 1).drop_last() =~= s@.take(i as int));
        if !(c == ' ' || c == '\t' || c == '\n' || c == '\r' || c == '\x0b' || c == '\x0c') {
            cur.push(c);
        } else if cur.len() > 0 {
            let w = cur;
            done.push(w);
            cur = Vec::new();
            assert(words_view(done@) =~= scan(s@.take(i as int)).0.push(w@));
        } else {
            assert(cur@ =~= Seq::<char>::empty());
        }
        i = i + 1;
    }
    assert(s@.take(s.len() as int) =~= s@);
    if cur.len() > 0 {
        let w = cur;
        let ghost before = done@;
        done.push(w);
        assert(words_view(done@) =~= words_view(before).push(w@));
    }
    done
}

/// Command families of the protocol.
#[derive(Debug, Clone, Copy, PartialEq, Eq, Structural)]
pub enum Command {
    Session,
    Naming,
}

/// Qualifiers that follow a command word on a line.
#[derive(Debug, Clone, Copy, PartialEq, Eq, Structural)]
pub enum Subcommand {
    Create,
    Status,
    Lookup,
    Reply,
}

/// The word that names a command on the wire.
pub open spec fn command_word(c: Command) -> Seq<char> {
    match c {
        Command::Session => "SESSION"@,
        Command::Naming => "NAMING"@,
    }
}

/// The word that names a subcommand on the wire.
pub open spec fn subcommand_word(s: Subcommand) -> Seq<char> {
    match s {
        Subcommand::Create => "CREATE"@,
        Subcommand::Status => "STATUS"@,
        Subcommand::Lookup => "LOOKUP"@,
        Subcommand::Reply => "REPLY"@,
    }
}

/// The words that open a line of the given command and subcommand.
pub open spec fn header(c: Command, s: Option<Subcommand>) -> Seq<Seq<char>> {
    match s {
        Some(sub) => seq![command_word(c), subcommand_word(sub)],
        None => seq![command_word(c)],
    }
}

impl Command {
    pub fn word(&self) -> (r: &'static str)
        ensures
            r@ == command_word(*self),
    {
        match self {
            Command::Session => "SESSION",
            Command::Naming => "NAMING",
        }
    }
}

impl Subcommand {
    pub fn word(&self) -> (r: &'static str)
        ensures
            r@ == subcommand_word(*self),
    {
        match self {
            Subcommand::Create => "CREATE",
            Subcommand::Status => "STATUS",
            Subcommand::Lookup => "LOOKUP",
            Subcommand::Reply => "REPLY",
        }
    }
}

/// `p` is the position of the first `=` of `t`.
pub open spec fn first_eq_at(t: Seq<char>, p: int) -> bool {
    &&& 0 <= p < t.len()
    &&& t[p] == '='
    &&& forall|j: int| 0 <= j < p ==> t[j] != '='
}

/// A `KEY=VALUE` word split at its first `=`; `None` for a word without `=`.
pub open spec fn field_of(t: Seq<char>) -> Option<(Seq<char>, Seq<char>)> {
    if exists|p: int| first_eq_at(t, p) {
        let p = choose|p: int| first_eq_at(t, p);
        Some((t.take(p), t.skip(p + 1)))
    } else {
        None
    }
}

/// The fields of a run of words, or `None` if one of them is no field.
pub open spec fn fields_of(ts: Seq<Seq<char>>) -> Option<Seq<(Seq<char>, Seq<char>)>>
    decreases ts.len(),
{
    if ts.len() == 0 {
        Some(Seq::empty())
    } else {
        match (fields_of(ts.drop_last()), field_of(ts.last())) {
            (Some(fs), Some(f)) => Some(fs.push(f)),
            _ => None,
        }
    }
}

/// Why a reply line was refused.
#[derive(Debug, Clone, Copy, PartialEq, Eq, Structural)]
pub enum ParseError {
    /// The line does not open with the expected command and subcommand.
    UnexpectedHeader,
    /// A word after the header holds no `=`.
    MalformedField,
}

/// `raw` opens with the words of the given command and subcommand.
pub open spec fn header_matches(raw: Seq<char>, c: Command, s: Option<Subcommand>) -> bool {
    let ts = tokens(raw);
    let h = header(c, s);
    ts.len() >= h.len() && ts.take(h.len() as int) == h
}

/// What parsing `raw` under the given command and subcommand yields.
pub open spec fn parse_spec(raw: Seq<char>, c: Command, s: Option<Subcommand>) -> Result<
    Seq<(Seq<char>, Seq<char>)>,
    ParseError,
> {
    if !header_matches(raw, c, s) {
        Err(ParseError::UnexpectedHeader)
    } else {
        match fields_of(tokens(raw).skip(header(c, s).len() as int)) {
            Some(fs) => Ok(fs),
            None => Err(ParseError::MalformedField),
        }
    }
}

/// The value of the last field named `key`.
pub open spec fn value_of(fields: Seq<(Seq<char>, Seq<char>)>, key: Seq<char>) -> Option<Seq<char>>
    decreases fields.len(),
{
    if fields.len() == 0 {
        None
    } else if fields.last().0 == key {
        Some(fields.last().1)
    } else {
        value_of(fields.drop_last(), key)
    }
}

/// The contents of a vector of fields.
pub open spec fn fields_view(v: Seq<(String, String)>) -> Seq<(Seq<char>, Seq<char>)> {
    v.map_values(|f: (String, String)| (f.0@, f.1@))
}

/// A reply line that was parsed under a command and subcommand.
pub struct ParsedReply {
    pub command: Command,
    pub subcommand: Option<Subcommand>,
    pub fields: Vec<(String, String)>,
}

impl ParsedReply {
    /// The fields in the order they stood on the line.
    pub open spec fn view_fields(&self) -> Seq<(Seq<char>, Seq<char>)> {
        fields_view(self.fields@)
    }

    /// The value of the field named `name` (the last one, should it repeat).
    pub fn get_value(&self, name: &str) -> (r: Option<String>)
        ensures
            r matches Some(v) ==> value_of(self.view_fields(), name@) == Some(v@),
            r is None ==> value_of(self.view_fields(), name@) is None,
    {
        let key = String::from_str(name);
        let mut i: usize = self.fields.len();
        assert(self.view_fields().take(i as int) =~= self.view_fields());
        while i > 0
            invariant
                i <= self.fields.len(),
                key@ == name@,
                value_of(self.view_fields(), name@) == value_of(
                    self.view_fields().take(i as int),
                    name@,
                ),
            decreases i,
        {
            let ghost fs = self.view_fields().take(i as int);
            assert(fs.drop_last() =~= self.view_fields().take(i - 1));
            if self.fields[i - 1].0 == key {
                return Some(self.fields[i - 1].1.clone());
            }
            i = i - 1;
        }
        None
    }
}

/// Relies on `String`'s `FromIterator<&char>`: the characters, in order.
#[verifier::external_body]
fn string_of(v: &[char]) -> (r: String)
    ensures
        r@ == v@,
{
    v.iter().collect()
}

/// The characters of `t` from `lo` up to `hi`.
fn sub_chars(t: &Vec<char>, lo: usize, hi: usize) -> (r: Vec<char>)
    requires
        lo <= hi <= t.len(),
    ensures
        r@ == t@.subrange(lo as int, hi as int),
{
    let mut r: Vec<char> = Vec::new();
    let mut i: usize = lo;
    while i < hi
        invariant
            lo <= i <= hi <= t.len(),
            r@ == t@.subrange(lo as int, i as int),
        decreases hi - i,
    {
        r.push(t[i]);
        i = i + 1;
        assert(r@ =~= t@.subrange(lo as int, i as int));
    }
    r
}

/// Splits a `KEY=VALUE` word at its first `=`.
pub fn split_field(t: &Vec<char>) -> (r: Option<(String, String)>)
    ensures
        match r {
            Some(kv) => field_of(t@) == Some((kv.0@, kv.1@)),
            None => field_of(t@) is None,
        },
{
    let mut i: usize = 0;
    while i < t.len() && t[i] != '='
        invariant
            i <= t.len(),
            forall|j: int| 0 <= j < i ==> t@[j] != '=',
        decreases t.len() - i,
    {
        i = i + 1;
    }
    if i == t.len() {
        return None;
    }
    assert(first_eq_at(t@, i as int));
    let key = sub_chars(t, 0, i);
    let value = sub_chars(t, i + 1, t.len());
    proof {
        let p = choose|p: int| first_eq_at(t@, p);
        assert(p == i as int);
        assert(key@ == t@.take(i as int));
        assert(value@ == t@.skip(i + 1));
    }
    Some((string_of(key.as_slice()), string_of(value.as_slice())))
}

/// A word that is no field spoils the fields of every run holding it.
proof fn lemma_fields_of_none(ts: Seq<Seq<char>>, k: int)
    requires
        0 <= k < ts.len(),
        field_of(ts[k]) is None,
    ensures
        fields_of(ts) is None,
    decreases ts.len(),
{
    if k < ts.len() - 1 {
        lemma_fields_of_none(ts.drop_last(), k);
    }
}

fn same_chars(a: &Vec<char>, b: &Vec<char>) -> (r: bool)
    ensures
        r == (a@ == b@),
{
    if a.len() != b.len() {
        return false;
    }
    let mut i: usize = 0;
    while i < a.len()
        invariant
            a.len() == b.len(),
            i <= a.len(),
            forall|j: int| 0 <= j < i ==> a@[j] == b@[j],
        decreases a.len() - i,
    {
        if a[i] != b[i] {
            return false;
        }
        i = i + 1;
    }
    assert(a@ =~= b@);
    true
}

/// Parses a reply line that must open with `command` and, when given,
/// `subcommand`; every later word must be a `KEY=VALUE` field.
pub fn parse(raw: &str, command: Command, subcommand: Option<Subcommand>) -> (r: Result<
    ParsedReply,
    ParseError,
>)
    ensures
        match r {
            Ok(p) => {
                &&& parse_spec(raw@, command, subcommand) == Ok::<_, ParseError>(p.view_fields())
                &&& p.command == command
                &&& p.subcommand == subcommand
            },
            Err(e) => parse_spec(raw@, command, subcommand) == Err::<
                Seq<(Seq<char>, Seq<char>)>,
                ParseError,
            >(e),
        },
{
    let chars = chars_of(raw);
    let ws = split_words(&chars);
    let ghost ts = tokens(raw@);
    let ghost h = header(command, subcommand);
    assert(words_view(ws@) == ts);
    let cw = chars_of(command.word());
    if ws.len() < 1 || !same_chars(&ws[0], &cw) {
        proof {
            if ts.len() >= h.len() {
                assert(ts.take(h.len() as int)[0] == ts[0]);
                assert(ts[0] == ws@[0]@);
            }
        }
        return Err(ParseError::UnexpectedHeader);
    }
    let mut start: usize = 1;
    match subcommand {
        Some(sub) => {
            let sw = chars_of(sub.word());
            if ws.len() < 2 || !same_chars(&ws[1], &sw) {
                proof {
                    if ts.len() >= h.len() {
                        assert(ts.take(h.len() as int)[1] == ts[1]);
                        assert(ts[1] == ws@[1]@);
                    }
                }
                return Err(ParseError::UnexpectedHeader);
            }
            start = 2;
        },
        None => {},
    }
    assert(h.len() == start);
    assert(ts.take(start as int) =~= h);
    let mut fields: Vec<(String, String)> = Vec::new();
    let mut i: usize = start;
    while i < ws.len()
        invariant
            start <= i <= ws.len(),
            words_view(ws@) == ts,
            ts == tokens(raw@),
            h == header(command, subcommand),
            h.len() == start,
            ts.take(start as int) == h,
            fields_of(ts.subrange(start as int, i as int)) == Some(fields_view(fields@)),
        decreases ws.len() - i,
    {
        let ghost part = ts.subrange(start as int, i + 1);
        assert(part.drop_last() =~= ts.subrange(start as int, i as int));
        match split_field(&ws[i]) {
            Some(kv) => {
                let ghost before = fields@;
                fields.push(kv);
                assert(fields_view(fields@) =~= fields_view(before).push((kv.0@, kv.1@)));
            },
            None => {
                proof {
                    assert(ts.skip(start as int)[i - start] == ws@[i as int]@);
                    lemma_fields_of_none(ts.skip(start as int), i - start);

                }
                return Err(ParseError::MalformedField);
            },
        }
        i = i + 1;
    }
    assert(ts.subrange(start as int, ws.len() as int) =~= ts.skip(start as int));
    Ok(ParsedReply { command, subcommand, fields })
}

/// A field as it is written on a line.
pub open spec fn field_word(f: (Seq<char>, Seq<char>)) -> Seq<char> {
    f.0 + seq!['='] + f.1
}

/// The words of a line: the header, then each field.
pub open spec fn line_words(
    c: Command,
    s: Option<Subcommand>,
    fields: Seq<(Seq<char>, Seq<char>)>,
) -> Seq<Seq<char>> {
    header(c, s) + fields.map_values(|f: (Seq<char>, Seq<char>)| field_word(f))
}

/// Words joined by single spaces.
pub open spec fn joined(ws: Seq<Seq<char>>) -> Seq<char>
    decreases ws.len(),
{
    if ws.len() == 0 {
        Seq::empty()
    } else if ws.len() == 1 {
        ws[0]
    } else {
        joined(ws.drop_last()) + seq![' '] + ws.last()
    }
}

/// The line that carries a command, its subcommand and its fields.
pub open spec fn message_spec(
    c: Command,
    s: Option<Subcommand>,
    fields: Seq<(Seq<char>, Seq<char>)>,
) -> Seq<char> {
    joined(line_words(c, s, fields)) + seq!['\n']
}

/// Writes a command line: the command word, the subcommand word if any, and
/// each field as `KEY=VALUE`, separated by spaces and ended by a newline.
pub fn format_message(
    command: Command,
    subcommand: Option<Subcommand>,
    fields: &Vec<(String, String)>,
) -> (r: String)
    ensures
        r@ == message_spec(command, subcommand, fields_view(fields@)),
{
    let ghost fv = fields_view(fields@);
    let ghost fw = fv.map_values(|f: (Seq<char>, Seq<char>)| field_word(f));
    let ghost h = header(command, subcommand);
    proof {
        reveal_strlit(" ");
        reveal_strlit("=");
    }
    let mut msg = String::from_str(command.word());
    match subcommand {
        Some(sub) => {
            msg.append(" ");
            msg.append(sub.word());
            assert(h.drop_last() =~= seq![command_word(command)]);
            assert(joined(h.drop_last()) == command_word(command));
            assert(h.last() == subcommand_word(sub));
            assert(msg@ =~= joined(h));
        },
        None => {},
    }
    assert(h + fw.take(0) =~= h);
    let mut i: usize = 0;
    while i < fields.len()
        invariant
            i <= fields.len(),
            fv == fields_view(fields@),
            fw == fv.map_values(|f: (Seq<char>, Seq<char>)| field_word(f)),
            h == header(command, subcommand),
            " "@ == seq![' '],
            "="@ == seq!['='],
            msg@ == joined(h + fw.take(i as int)),
        decreases fields.len() - i,
    {
        let ghost before = msg@;
        msg.append(" ");
        msg.append(fields[i].0.as_str());
        msg.append("=");
        msg.append(fields[i].1.as_str());
        let ghost ws = h + fw.take(i + 1);
        assert(ws.drop_last() =~= h + fw.take(i as int));
        assert(ws.last() == field_word(fv[i as int]));
        assert(msg@ =~= joined(ws));
        i = i + 1;
    }
    assert(h + fw.take(fields.len() as int) =~= line_words(command, subcommand, fv));
    msg.append("\n");
    proof {
        reveal_strlit("\n");
    }
    assert(msg@ =~= message_spec(command, subcommand, fv));
    msg
}

/// `w` holds no separator.
pub open spec fn is_word(w: Seq<char>) -> bool {
    forall|i: int| 0 <= i < w.len() ==> !is_space(#[trigger] w[i])
}

/// A field that survives being written and read back: neither part holds a
/// separator, and the key holds no `=`.
pub open spec fn field_ok(f: (Seq<char>, Seq<char>)) -> bool {
    &&& is_word(f.0)
    &&& is_word(f.1)
    &&& forall|i: int| 0 <= i < f.0.len() ==> #[trigger] f.0[i] != '='
}

proof fn lemma_scan_word(p: Seq<char>, w: Seq<char>)
    requires
        is_word(w),
    ensures
        scan(p + w) == (scan(p).0, scan(p).1 + w),
    decreases w.len(),
{
    if w.len() == 0 {
        assert(p + w =~= p);
        assert(scan(p).1 + w =~= scan(p).1);
    } else {
        lemma_scan_word(p, w.drop_last());
        assert((p + w).drop_last() =~= p + w.drop_last());
        assert((scan(p).1 + w.drop_last()).push(w.last()) =~= scan(p).1 + w);
    }
}

proof fn lemma_scan_joined(ws: Seq<Seq<char>>)
    requires
        ws.len() >= 1,
        forall|i: int| 0 <= i < ws.len() ==> is_word(#[trigger] ws[i]) && ws[i].len() > 0,
    ensures
        scan(joined(ws)) == (ws.drop_last(), ws.last()),
    decreases ws.len(),
{
    if ws.len() == 1 {
        lemma_scan_word(Seq::empty(), ws[0]);
        assert(Seq::<char>::empty() + ws[0] =~= ws[0]);
        assert(ws.drop_last() =~= Seq::<Seq<char>>::empty());
        assert(Seq::<char>::empty() + ws[0] =~= ws[0]);
    } else {
        let prev = ws.drop_last();
        assert(forall|i: int| 0 <= i < prev.len() ==> prev[i] == ws[i]);
        lemma_scan_joined(prev);
        let a = joined(prev) + seq![' '];
        assert(a.drop_last() =~= joined(prev));
        assert(prev.drop_last().push(prev.last()) =~= prev);
        assert(scan(a) == (prev, Seq::<char>::empty()));
        lemma_scan_word(a, ws.last());
        assert(Seq::<char>::empty() + ws.last() =~= ws.last());
    }
}

proof fn lemma_field_of_word(f: (Seq<char>, Seq<char>))
    requires
        field_ok(f),
    ensures
        field_of(field_word(f)) == Some(f),
{
    let t = field_word(f);
    let k = f.0.len() as int;
    assert(first_eq_at(t, k));
    let p = choose|p: int| first_eq_at(t, p);
    if p < k {
        assert(t[p] == f.0[p]);
    }
    assert(p == k);
    assert(t.take(k) =~= f.0);
    assert(t.skip(k + 1) =~= f.1);
}

proof fn lemma_fields_of_words(fields: Seq<(Seq<char>, Seq<char>)>)
    requires
        forall|i: int| 0 <= i < fields.len() ==> field_ok(#[trigger] fields[i]),
    ensures
        fields_of(fields.map_values(|f: (Seq<char>, Seq<char>)| field_word(f))) == Some(fields),
    decreases fields.len(),
{
    let ws = fields.map_values(|f: (Seq<char>, Seq<char>)| field_word(f));
    if fields.len() > 0 {
        let prev = fields.drop_last();
        assert(forall|i: int| 0 <= i < prev.len() ==> prev[i] == fields[i]);
        lemma_fields_of_words(prev);
        assert(ws.drop_last() =~= prev.map_values(|f: (Seq<char>, Seq<char>)| field_word(f)));
        lemma_field_of_word(fields.last());
        assert(prev.push(fields.last()) =~= fields);
    } else {
        assert(ws =~= Seq::<Seq<char>>::empty());
    }
}

proof fn lemma_header_words(c: Command, s: Option<Subcommand>)
    ensures
        forall|i: int|
            0 <= i < header(c, s).len() ==> is_word(#[trigger] header(c, s)[i]) && header(
                c,
                s,
            )[i].len() > 0,
{
    reveal_strlit("SESSION");
    reveal_strlit("NAMING");
    reveal_strlit("CREATE");
    reveal_strlit("STATUS");
    reveal_strlit("LOOKUP");
    reveal_strlit("REPLY");
}

/// Reading back a written line recovers its fields, in order, when no field
/// holds a separator and no key holds `=`.
pub proof fn lemma_parse_format_round_trip(
    c: Command,
    s: Option<Subcommand>,
    fields: Seq<(Seq<char>, Seq<char>)>,
)
    requires
        forall|i: int| 0 <= i < fields.len() ==> field_ok(#[trigger] fields[i]),
    ensures
        parse_spec(message_spec(c, s, fields), c, s) == Ok::<_, ParseError>(fields),
{
    let h = header(c, s);
    let fw = fields.map_values(|f: (Seq<char>, Seq<char>)| field_word(f));
    let ws = line_words(c, s, fields);
    lemma_header_words(c, s);
    assert forall|i: int| 0 <= i < ws.len() implies is_word(#[trigger] ws[i]) && ws[i].len()
        > 0 by {
        if i >= h.len() {
            let f = fields[i - h.len()];
            assert(ws[i] == field_word(f));
            assert(field_word(f)[f.0.len() as int] == '=');
            assert forall|j: int| 0 <= j < ws[i].len() implies !is_space(#[trigger] ws[i][j]) by {
                if j < f.0.len() {
                    assert(ws[i][j] == f.0[j]);
                } else if j > f.0.len() {
                    assert(ws[i][j] == f.1[j - f.0.len() - 1]);
                }
            }
        }
    }
    lemma_scan_joined(ws);
    let line = joined(ws) + seq!['\n'];
    assert(line.drop_last() =~= joined(ws));
    assert(ws.drop_last().push(ws.last()) =~= ws);
    assert(tokens(line) == ws);
    assert(ws.take(h.len() as int) =~= h);
    assert(ws.skip(h.len() as int) =~= fw);
    lemma_fields_of_words(fields);
}

} // verus!
