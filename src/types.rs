//! The record model: a package reference and a classified line.
use vstd::prelude::*;

verus! {

/// Mathematical model of a package reference.
pub struct PackageView {
    pub name: Seq<char>,
    pub version: Seq<char>,
}

/// Mathematical model of an Enabled or Disabled record.
pub struct RecordView {
    pub pre: Seq<char>,
    pub package: PackageView,
    pub post: Seq<char>,
}

/// Mathematical model of a classified line.
pub enum LineView {
    Enabled(RecordView),
    Disabled(RecordView),
    Ignored(Seq<char>),
}

/// The text between a name and its version: ` = "`.
pub open spec fn assign_text() -> Seq<char> {
    seq![' ', '=', ' ', '"']
}

/// The prefix that disabling a record puts in front of its declaration.
pub open spec fn comment_marker() -> Seq<char> {
    seq!['#', ' ']
}

/// `name = "version"`.
pub open spec fn render_package(p: PackageView) -> Seq<char> {
    p.name + assign_text() + p.version + seq!['"']
}

/// `pre + name = "version" + post`.
pub open spec fn render_record(r: RecordView) -> Seq<char> {
    r.pre + render_package(r.package) + r.post
}

pub open spec fn render_line(l: LineView) -> Seq<char> {
    match l {
        LineView::Enabled(r) => render_record(r),
        LineView::Disabled(r) => render_record(r),
        LineView::Ignored(raw) => raw,
    }
}

/// The record with its comment decoration dropped.
pub open spec fn enabled_record(r: RecordView) -> RecordView {
    RecordView { pre: Seq::empty(), package: r.package, post: r.post }
}

/// The record behind a canonical comment marker.
pub open spec fn disabled_record(r: RecordView) -> RecordView {
    RecordView { pre: comment_marker(), package: r.package, post: r.post }
}

/// Enabling a line: a Disabled record becomes Enabled, anything else stays.
pub open spec fn enable_line(l: LineView) -> LineView {
    match l {
        LineView::Disabled(r) => LineView::Enabled(enabled_record(r)),
        _ => l,
    }
}

/// Disabling a line: an Enabled record becomes Disabled, anything else stays.
pub open spec fn disable_line(l: LineView) -> LineView {
    match l {
        LineView::Enabled(r) => LineView::Disabled(disabled_record(r)),
        _ => l,
    }
}

/// Gives a line's record a new version; an Ignored line stays.
pub open spec fn update_line(l: LineView, version: Seq<char>) -> LineView {
    match l {
        LineView::Enabled(r) => LineView::Enabled(
            RecordView { package: PackageView { version, ..r.package }, ..r },
        ),
        LineView::Disabled(r) => LineView::Disabled(
            RecordView { package: PackageView { version, ..r.package }, ..r },
        ),
        LineView::Ignored(_) => l,
    }
}

/// The record of an Enabled or Disabled line.
pub open spec fn record_of(l: LineView) -> RecordView {
    match l {
        LineView::Enabled(r) => r,
        LineView::Disabled(r) => r,
        LineView::Ignored(_) => arbitrary(),
    }
}

/// Whether the line is an Enabled or Disabled record of the package `name`.
pub open spec fn refers_to(l: LineView, name: Seq<char>) -> bool {
    match l {
        LineView::Enabled(r) => r.package.name == name,
        LineView::Disabled(r) => r.package.name == name,
        LineView::Ignored(_) => false,
    }
}

/// Enabling a line twice is enabling it once.
pub proof fn lemma_enable_idempotent(l: LineView)
    ensures
        enable_line(enable_line(l)) == enable_line(l),
        l is Enabled ==> enable_line(l) == l,
{
}

/// Disabling a line twice is disabling it once.
pub proof fn lemma_disable_idempotent(l: LineView)
    ensures
        disable_line(disable_line(l)) == disable_line(l),
        l is Disabled ==> disable_line(l) == l,
{
}

/// Enabling a disabled Enabled record gives back its package, name and version.
pub proof fn lemma_enable_disable_package(r: RecordView)
    ensures
        enable_line(disable_line(LineView::Enabled(r))) == LineView::Enabled(
            RecordView { pre: Seq::empty(), package: r.package, post: r.post },
        ),
        enabled_record(disabled_record(r)).package == r.package,
{
}

/// A package reference: a name and an opaque version string (a "depspec").
#[derive(Clone, Debug)]
pub struct Package {
    pub name: String,
    pub version: String,
}

impl View for Package {
    type V = PackageView;

    open spec fn view(&self) -> PackageView {
        PackageView { name: self.name@, version: self.version@ }
    }
}

impl Package {
    pub fn new(name: &str, version: &str) -> (r: Package)
        ensures
            r@ == (PackageView { name: name@, version: version@ }),
    {
        Package { name: name.to_owned(), version: version.to_owned() }
    }

    /// Sets the version; returns whether it differed from the previous one.
    pub fn update(&mut self, version: &str) -> (changed: bool)
        ensures
            final(self)@ == (PackageView { name: old(self)@.name, version: version@ }),
            changed == (old(self)@.version != version@),
    {
        let v = version.to_owned();
        if self.version == v {
            false
        } else {
            self.version = v;
            true
        }
    }

    /// The declaration text `name = "version"`.
    pub fn render(&self) -> (r: String)
        ensures
            r@ == render_package(self@),
    {
        let mut r = self.name.clone();
        r.append(" = \"");
        r.append(self.version.as_str());
        r.append("\"");
        proof {
            reveal_strlit(" = \"");
            reveal_strlit("\"");
        }
        r
    }
}

/// An active declaration, with the text around it on its line.
#[derive(Clone, Debug)]
pub struct Enabled {
    pub pre: String,
    pub package: Package,
    pub post: String,
}

impl View for Enabled {
    type V = RecordView;

    open spec fn view(&self) -> RecordView {
        RecordView { pre: self.pre@, package: self.package@, post: self.post@ }
    }
}

/// `pre + name = "version" + post`, for both kinds of record.
fn render_parts(pre: &String, package: &Package, post: &String) -> (r: String)
    ensures
        r@ == pre@ + render_package(package@) + post@,
{
    let mut r = pre.clone();
    let p = package.render();
    r.append(p.as_str());
    r.append(post.as_str());
    r
}

impl Enabled {
    pub fn new(pre: &str, post: &str, package: Package) -> (r: Enabled)
        ensures
            r@ == (RecordView { pre: pre@, package: package@, post: post@ }),
    {
        Enabled { pre: pre.to_owned(), post: post.to_owned(), package }
    }

    /// Comments the declaration out behind the canonical marker `# `.
    pub fn disable(self) -> (r: Disabled)
        ensures
            r@ == disabled_record(self@),
    {
        let marker = String::from_str("# ");
        proof {
            reveal_strlit("# ");
            assert(marker@ =~= comment_marker());
        }
        Disabled { pre: marker, package: self.package, post: self.post }
    }

    pub fn update(&mut self, version: &str) -> (changed: bool)
        ensures
            final(self)@ == (RecordView {
                package: PackageView { version: version@, ..old(self)@.package },
                ..old(self)@
            }),
            changed == (old(self)@.package.version != version@),
    {
        self.package.update(version)
    }

    pub fn render(&self) -> (r: String)
        ensures
            r@ == render_record(self@),
    {
        render_parts(&self.pre, &self.package, &self.post)
    }
}

/// A commented-out declaration; `pre` holds everything before its name.
#[derive(Clone, Debug)]
pub struct Disabled {
    pub pre: String,
    pub package: Package,
    pub post: String,
}

impl View for Disabled {
    type V = RecordView;

    open spec fn view(&self) -> RecordView {
        RecordView { pre: self.pre@, package: self.package@, post: self.post@ }
    }
}

impl Disabled {
    pub fn new(pre: String, post: &str, package: Package) -> (r: Disabled)
        ensures
            r@ == (RecordView { pre: pre@, package: package@, post: post@ }),
    {
        Disabled { pre, post: post.to_owned(), package }
    }

    /// Uncomments the declaration, dropping its whole prefix.
    pub fn enable(self) -> (r: Enabled)
        ensures
            r@ == enabled_record(self@),
    {
        Enabled { pre: String::new(), package: self.package, post: self.post }
    }

    pub fn update(&mut self, version: &str) -> (changed: bool)
        ensures
            final(self)@ == (RecordView {
                package: PackageView { version: version@, ..old(self)@.package },
                ..old(self)@
            }),
            changed == (old(self)@.package.version != version@),
    {
        self.package.update(version)
    }

    pub fn render(&self) -> (r: String)
        ensures
            r@ == render_record(self@),
    {
        render_parts(&self.pre, &self.package, &self.post)
    }
}

/// One line of a manifest, classified.
#[derive(Clone, Debug)]
pub enum Line {
    Enabled(Enabled),
    Disabled(Disabled),
    Ignored(String),
}

impl View for Line {
    type V = LineView;

    open spec fn view(&self) -> LineView {
        match self {
            Line::Enabled(e) => LineView::Enabled(e@),
            Line::Disabled(d) => LineView::Disabled(d@),
            Line::Ignored(raw) => LineView::Ignored(raw@),
        }
    }
}

impl Line {
    /// Uncomments a Disabled record; an Enabled one is returned as it is.
    pub fn enable(self) -> (r: Line)
        requires
            !(self@ is Ignored),
        ensures
            r@ == enable_line(self@),
            self@ is Enabled ==> r@ == self@,
    {
        match self {
            Line::Disabled(d) => Line::Enabled(d.enable()),
            Line::Enabled(_) => self,
            Line::Ignored(_) => {
                proof {
                    assert(false);
                }
                self
            },
        }
    }

    /// Comments out an Enabled record; a Disabled one is returned as it is.
    pub fn disable(self) -> (r: Line)
        requires
            !(self@ is Ignored),
        ensures
            r@ == disable_line(self@),
            self@ is Disabled ==> r@ == self@,
    {
        match self {
            Line::Enabled(e) => Line::Disabled(e.disable()),
            Line::Disabled(_) => self,
            Line::Ignored(_) => {
                proof {
                    assert(false);
                }
                self
            },
        }
    }

    /// Sets the version of the line's record; returns whether it changed.
    pub fn update(&mut self, version: &str) -> (changed: bool)
        requires
            !(old(self)@ is Ignored),
        ensures
            final(self)@ == update_line(old(self)@, version@),
            changed == (record_of(old(self)@).package.version != version@),
    {
        match self {
            Line::Enabled(e) => e.update(version),
            Line::Disabled(d) => d.update(version),
            Line::Ignored(_) => {
                proof {
                    assert(false);
                }
                false
            },
        }
    }

    /// The line's text, without a terminator.
    pub fn render(&self) -> (r: String)
        ensures
            r@ == render_line(self@),
    {
        match self {
            Line::Enabled(e) => e.render(),
            Line::Disabled(d) => d.render(),
            Line::Ignored(raw) => raw.clone(),
        }
    }
}

} // verus!
