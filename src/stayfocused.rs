use vstd::prelude::*;
use vstd::string::StringExecFns;

verus! {

/// The trailing `n` elements of `s` (all of `s` when it is shorter).
pub open spec fn keep_last<A>(s: Seq<A>, n: nat) -> Seq<A> {
    if s.len() <= n {
        s
    } else {
        s.subrange(s.len() - n, s.len() as int)
    }
}

/// Concatenates `window` and `new_lines` and keeps the last `capacity` lines.
pub fn merge_window(window: Vec<String>, new_lines: Vec<String>, capacity: usize) -> (r: Vec<
    String,
>)
    ensures
        r@ == keep_last(window@ + new_lines@, capacity as nat),
{
    let mut all = window;
    let mut incoming = new_lines;
    all.append(&mut incoming);
    let len = all.len();
    if len <= capacity {
        all
    } else {
        let kept = all.split_off(len - capacity);
        kept
    }
}

/// The batches concatenated in order.
pub open spec fn concat_all<A>(batches: Seq<Seq<A>>) -> Seq<A>
    decreases batches.len(),
{
    if batches.len() == 0 {
        Seq::empty()
    } else {
        concat_all(batches.drop_last()) + batches.last()
    }
}

/// The window after merging each batch in turn.
pub open spec fn merge_all<A>(window: Seq<A>, batches: Seq<Seq<A>>, capacity: nat) -> Seq<A>
    decreases batches.len(),
{
    if batches.len() == 0 {
        window
    } else {
        keep_last(merge_all(window, batches.drop_last(), capacity) + batches.last(), capacity)
    }
}

proof fn lemma_keep_last_absorbs<A>(x: Seq<A>, y: Seq<A>, n: nat)
    ensures
        keep_last(keep_last(x, n) + y, n) == keep_last(x + y, n),
{
    if x.len() > n {
        let k = keep_last(x, n);
        if (k + y).len() <= n {
            assert(y.len() == 0);
            assert(k + y =~= k);
            assert(x + y =~= x);
        } else {
            assert((k + y).subrange((k + y).len() - n, (k + y).len() as int) =~= (x + y).subrange(
                (x + y).len() - n,
                (x + y).len() as int,
            ));
        }
    } else {
        assert(keep_last(x, n) == x);
    }
}

/// However many batches are merged into a window that fits its capacity,
/// the window never holds more than `capacity` lines, and it holds exactly
/// the most recent lines of everything seen, in the order they were seen.
pub proof fn lemma_merges_keep_recent_in_order<A>(window: Seq<A>, batches: Seq<Seq<A>>, capacity: nat)
    requires
        window.len() <= capacity,
    ensures
        merge_all(window, batches, capacity).len() <= capacity,
        merge_all(window, batches, capacity) == keep_last(window + concat_all(batches), capacity),
        merge_all(window, batches, capacity).is_suffix_of(window + concat_all(batches)),
    decreases batches.len(),
{
    let all = window + concat_all(batches);
    if batches.len() == 0 {
        assert(all =~= window);
    } else {
        lemma_merges_keep_recent_in_order(window, batches.drop_last(), capacity);
        let prev = window + concat_all(batches.drop_last());
        lemma_keep_last_absorbs(prev, batches.last(), capacity);
        assert(prev + batches.last() =~= all);
    }
    let r = keep_last(all, capacity);
    assert(all.subrange(all.len() - r.len(), all.len() as int) =~= r);
}

/// Merging no new lines leaves a window that fits its capacity unchanged.
pub proof fn lemma_merge_nothing<A>(window: Seq<A>, capacity: nat)
    requires
        window.len() <= capacity,
    ensures
        keep_last(window + Seq::<A>::empty(), capacity) == window,
{
    assert(window + Seq::<A>::empty() =~= window);
}

/// `needle` occurs somewhere in `hay`.
pub open spec fn contains_text(hay: Seq<char>, needle: Seq<char>) -> bool {
    exists|k: int|
        0 <= k && k + needle.len() <= hay.len() && #[trigger] hay.subrange(k, k + needle.len())
            == needle
}

proof fn lemma_contains_in_concat(a: Seq<char>, b: Seq<char>, needle: Seq<char>)
    ensures
        contains_text(a, needle) ==> contains_text(a + b, needle),
        contains_text(b, needle) ==> contains_text(a + b, needle),
{
    if contains_text(a, needle) {
        let k = choose|k: int|
            0 <= k && k + needle.len() <= a.len() && #[trigger] a.subrange(k, k + needle.len())
                == needle;
        assert((a + b).subrange(k, k + needle.len()) =~= a.subrange(k, k + needle.len()));
    }
    if contains_text(b, needle) {
        let k = choose|k: int|
            0 <= k && k + needle.len() <= b.len() && #[trigger] b.subrange(k, k + needle.len())
                == needle;
        let j = a.len() + k;
        assert((a + b).subrange(j, j + needle.len()) =~= b.subrange(k, k + needle.len()));
    }
}

proof fn lemma_contains_self(s: Seq<char>)
    ensures
        contains_text(s, s),
{
    let k: int = 0;
    assert(s.subrange(k, k + s.len()) =~= s);
}

proof fn lemma_bullets_contain_items(items: Seq<Seq<char>>, i: int)
    requires
        0 <= i < items.len(),
    ensures
        contains_text(bullet_list(items), items[i]),
    decreases items.len(),
{
    let rest = bullet_list(items.drop_last());
    if i == items.len() - 1 {
        lemma_contains_self(items.last());
        lemma_contains_in_concat(rest + seq!['-', ' '], items.last(), items.last());
        lemma_contains_in_concat(rest + seq!['-', ' '] + items.last(), seq!['\n'], items.last());
    } else {
        lemma_bullets_contain_items(items.drop_last(), i);
        lemma_contains_in_concat(rest, seq!['-', ' '] + items.last() + seq!['\n'], items[i]);
        assert(rest + (seq!['-', ' '] + items.last() + seq!['\n']) =~= bullet_list(items));
    }
}

proof fn lemma_lines_contain_each(lines: Seq<Seq<char>>, i: int)
    requires
        0 <= i < lines.len(),
    ensures
        contains_text(join_lines(lines), lines[i]),
    decreases lines.len(),
{
    lemma_contains_self(lines[i]);
    if lines.len() > 1 {
        let rest = join_lines(lines.drop_last());
        if i == lines.len() - 1 {
            lemma_contains_in_concat(rest + seq!['\n'], lines.last(), lines.last());
        } else {
            lemma_lines_contain_each(lines.drop_last(), i);
            lemma_contains_in_concat(rest, seq!['\n'] + lines.last(), lines[i]);
            assert(rest + (seq!['\n'] + lines.last()) =~= join_lines(lines));
        }
    }
}

/// The rendered context holds the whole window (and each of its lines),
/// the primary objective when one is set, and every side quest when they
/// are set, each verbatim.
pub proof fn lemma_context_holds_state(h: History)
    ensures
        contains_text(context_text(h), join_lines(views(h.tail@))),
        forall|i: int|
            0 <= i < h.tail@.len() ==> contains_text(context_text(h), #[trigger] h.tail@[i]@),
        h.primary_objective is Some ==> contains_text(
            context_text(h),
            h.primary_objective->Some_0@,
        ),
        h.side_quests is Some ==> forall|i: int|
            0 <= i < h.side_quests->Some_0@.len() ==> contains_text(
                context_text(h),
                #[trigger] h.side_quests->Some_0@[i]@,
            ),
{
    let obj = objective_text(h.primary_objective);
    let side = side_quest_text(h.side_quests);
    let window = join_lines(views(h.tail@));
    let hist = histfile_text(h.tail@);
    assert(context_text(h) == obj + side + hist);
    assert(hist == ("<histfile>\n"@ + window) + "\n</histfile>\n"@);
    lemma_contains_self(window);
    lemma_contains_in_concat("<histfile>\n"@, window, window);
    lemma_contains_in_concat("<histfile>\n"@ + window, "\n</histfile>\n"@, window);
    lemma_contains_in_concat(obj + side, hist, window);
    assert forall|i: int| 0 <= i < h.tail@.len() implies contains_text(
        context_text(h),
        #[trigger] h.tail@[i]@,
    ) by {
        let line = h.tail@[i]@;
        lemma_lines_contain_each(views(h.tail@), i);
        lemma_contains_in_concat("<histfile>\n"@, window, line);
        lemma_contains_in_concat("<histfile>\n"@ + window, "\n</histfile>\n"@, line);
        lemma_contains_in_concat(obj + side, hist, line);
    }
    if let Some(p) = h.primary_objective {
        assert(obj == ("Primary objective: "@ + p@) + seq!['\n']);
        lemma_contains_self(p@);
        lemma_contains_in_concat("Primary objective: "@, p@, p@);
        lemma_contains_in_concat("Primary objective: "@ + p@, seq!['\n'], p@);
        lemma_contains_in_concat(obj, side, p@);
        lemma_contains_in_concat(obj + side, hist, p@);
    }
    if let Some(q) = h.side_quests {
        assert forall|i: int| 0 <= i < q@.len() implies contains_text(
            context_text(h),
            #[trigger] q@[i]@,
        ) by {
            let item = q@[i]@;
            lemma_bullets_contain_items(views(q@), i);
            lemma_contains_in_concat("Side quests:\n"@, bullet_list(views(q@)), item);
            lemma_contains_in_concat(obj, side, item);
            lemma_contains_in_concat(obj + side, hist, item);
        }
    }
}

#[verifier::external_type_specification]
#[verifier::external_body]
pub struct ExContentBlock(claudius::ContentBlock);

/// The text content block that `claudius::TextBlock::new` makes of a text.
pub uninterp spec fn text_block_of(text: Seq<char>) -> claudius::ContentBlock;

/// Relies on `claudius::TextBlock::new`: a text content block holding
/// `text`, with no citations and no cache control.
#[verifier::external_body]
fn text_block(text: String) -> (r: claudius::ContentBlock)
    ensures
        r == text_block_of(text@),
{
    claudius::ContentBlock::Text(claudius::TextBlock::new(text))
}

/// How the history file is found and how much of it the window keeps.
pub struct StayFocusedOptions {
    /// The history file whose trailing lines are watched.
    pub histfile: String,
    /// How many trailing lines the window keeps.
    pub tail: usize,
}

impl Default for StayFocusedOptions {
    fn default() -> (r: Self)
        ensures
            r.histfile@ == ".histfile"@,
            r.tail == 10,
    {
        StayFocusedOptions { histfile: ".histfile".to_owned(), tail: 10 }
    }
}

/// The persisted focus state: the history window, a cursor into the
/// history file, the primary objective, the side quests and the options
/// that fixed the window's capacity.
pub struct History {
    pub tail: Vec<String>,
    pub last_index: usize,
    pub primary_objective: Option<String>,
    pub side_quests: Option<Vec<String>>,
    pub options: StayFocusedOptions,
}

/// The text of each line.
pub open spec fn views(v: Seq<String>) -> Seq<Seq<char>> {
    v.map_values(|s: String| s@)
}

/// The lines joined with a newline between each two.
pub open spec fn join_lines(lines: Seq<Seq<char>>) -> Seq<char>
    decreases lines.len(),
{
    if lines.len() == 0 {
        Seq::empty()
    } else if lines.len() == 1 {
        lines[0]
    } else {
        join_lines(lines.drop_last()) + seq!['\n'] + lines.last()
    }
}

/// Each item on a line of its own, after a dash and a space.
pub open spec fn bullet_list(items: Seq<Seq<char>>) -> Seq<char>
    decreases items.len(),
{
    if items.len() == 0 {
        Seq::empty()
    } else {
        bullet_list(items.drop_last()) + seq!['-', ' '] + items.last() + seq!['\n']
    }
}

/// The statement of the primary objective, empty when none is set.
pub open spec fn objective_text(po: Option<String>) -> Seq<char> {
    match po {
        Some(p) => "Primary objective: "@ + p@ + seq!['\n'],
        None => Seq::empty(),
    }
}

/// The bulleted side quests, empty when none are set or the list is empty.
pub open spec fn side_quest_text(sq: Option<Vec<String>>) -> Seq<char> {
    match sq {
        Some(q) => if q@.len() > 0 {
            "Side quests:\n"@ + bullet_list(views(q@))
        } else {
            Seq::empty()
        },
        None => Seq::empty(),
    }
}

/// The window wrapped in a delimited block.
pub open spec fn histfile_text(tail: Seq<String>) -> Seq<char> {
    "<histfile>\n"@ + join_lines(views(tail)) + "\n</histfile>\n"@
}

/// The text handed to the model for a focus state.
pub open spec fn context_text(h: History) -> Seq<char> {
    objective_text(h.primary_objective) + side_quest_text(h.side_quests) + histfile_text(h.tail@)
}

impl History {
    /// The window holds no more lines than its capacity.
    pub open spec fn window_fits(&self) -> bool {
        self.tail@.len() <= self.options.tail
    }

    /// A fresh state: empty window, cursor at zero, no objective, no side quests.
    pub fn new(options: StayFocusedOptions) -> (r: Self)
        ensures
            r.tail@.len() == 0,
            r.last_index == 0,
            r.primary_objective is None,
            r.side_quests is None,
            r.options == options,
            r.window_fits(),
    {
        History {
            tail: Vec::new(),
            last_index: 0,
            primary_objective: None,
            side_quests: None,
            options,
        }
    }

    /// Appends newly observed lines to the window and keeps only the last
    /// `options.tail` of them.
    pub fn merge(&mut self, actions: Vec<String>)
        ensures
            final(self).tail@ == keep_last(old(self).tail@ + actions@, old(self).options.tail as nat),
            final(self).last_index == old(self).last_index,
            final(self).primary_objective == old(self).primary_objective,
            final(self).side_quests == old(self).side_quests,
            final(self).options == old(self).options,
            final(self).window_fits(),
    {
        let mut window: Vec<String> = Vec::new();
        std::mem::swap(&mut window, &mut self.tail);
        self.tail = merge_window(window, actions, self.options.tail);
    }

    /// The text handed to the model: the primary objective if set, the side
    /// quests as a bulleted list if set and not empty, and the window wrapped
    /// in a `<histfile>` block.
    pub fn render_context(&self) -> (r: String)
        ensures
            r@ == context_text(*self),
    {
        let mut out = String::new();
        if let Some(po) = &self.primary_objective {
            out.append("Primary objective: ");
            out.append(po.as_str());
            out.append("\n");
        }
        proof {
            reveal_strlit("\n");
        }
        assert(out@ == objective_text(self.primary_objective));
        if let Some(quests) = &self.side_quests {
            if quests.len() > 0 {
                out.append("Side quests:\n");
                let ghost base = out@;
                let mut i: usize = 0;
                while i < quests.len()
                    invariant
                        i <= quests@.len(),
                        out@ == base + bullet_list(views(quests@).take(i as int)),
                    decreases quests@.len() - i,
                {
                    proof {
                        reveal_strlit("- ");
                        reveal_strlit("\n");
                    }
                    let ghost before = out@;
                    out.append("- ");
                    out.append(quests[i].as_str());
                    out.append("\n");
                    let ghost t = views(quests@).take(i + 1);
                    assert(t.drop_last() =~= views(quests@).take(i as int));
                    assert(t.last() == quests@[i as int]@);
                    assert(out@ =~= base + bullet_list(t));
                    i = i + 1;
                }
                assert(views(quests@).take(i as int) =~= views(quests@));
            }
        }
        let ghost prefix = out@;
        assert(prefix == objective_text(self.primary_objective) + side_quest_text(self.side_quests));
        out.append("<histfile>\n");
        let ghost opened = out@;
        let mut j: usize = 0;
        while j < self.tail.len()
            invariant
                j <= self.tail@.len(),
                out@ == opened + join_lines(views(self.tail@).take(j as int)),
            decreases self.tail@.len() - j,
        {
            proof {
                reveal_strlit("\n");
            }
            let ghost t = views(self.tail@).take(j + 1);
            assert(t.drop_last() =~= views(self.tail@).take(j as int));
            assert(t.last() == self.tail@[j as int]@);
            if j > 0 {
                out.append("\n");
                assert(out@ =~= opened + join_lines(t.drop_last()) + seq!['\n']);
            } else {
                assert(t.drop_last().len() == 0);
            }
            out.append(self.tail[j].as_str());
            assert(out@ =~= opened + join_lines(t));
            j = j + 1;
        }
        assert(views(self.tail@).take(j as int) =~= views(self.tail@));
        out.append("\n</histfile>\n");
        out
    }

    /// The rendered context as a text content block for the model.
    pub fn as_content_block(&self) -> (r: claudius::ContentBlock)
        ensures
            r == text_block_of(context_text(*self)),
    {
        text_block(self.render_context())
    }
}

} // verus!
