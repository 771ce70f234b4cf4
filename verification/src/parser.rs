use vstd::prelude::*;
use crate::tokenizer::{token_views, Token, TokenView};

verus! {

/// One datum of a document. A `Num` holds the literal's text.
#[derive(Debug, PartialEq)]
pub enum Value {
    Null,
    Str(String),
    Num(String),
    Bool(bool),
    Obj(Object),
    Arr(Array),
}

/// The one top-level value of a document, where it has one.
#[derive(Debug, PartialEq)]
pub struct Root {
    pub child: Option<Value>,
}

/// The properties of an object, in the order of the document.
#[derive(Debug, PartialEq)]
pub struct Object {
    pub children: Vec<Property>,
}

/// The items of an array, in the order of the document.
#[derive(Debug, PartialEq)]
pub struct Array {
    pub children: Vec<Value>,
}

/// A key and its value.
#[derive(Debug, PartialEq)]
pub struct Property {
    pub lhs: String,
    pub rhs: Value,
}

/// What a `Value` stands for in contracts.
pub enum ValueView {
    Null,
    Str(Seq<char>),
    Num(Seq<char>),
    Bool(bool),
    Obj(Seq<PropertyView>),
    Arr(Seq<ValueView>),
}

/// What a `Property` stands for in contracts.
pub struct PropertyView {
    pub lhs: Seq<char>,
    pub rhs: ValueView,
}

impl View for Value {
    type V = ValueView;

    open spec fn view(&self) -> ValueView
        decreases self,
    {
        match self {
            Value::Null => ValueView::Null,
            Value::Str(s) => ValueView::Str(s@),
            Value::Num(s) => ValueView::Num(s@),
            Value::Bool(b) => ValueView::Bool(*b),
            Value::Obj(o) => ValueView::Obj(
                Seq::new(
                    o.children@.len(),
                    |i: int|
                        PropertyView {
                            lhs: o.children@[i].lhs@,
                            rhs: if 0 <= i < o.children@.len() {
                                o.children@[i].rhs.view()
                            } else {
                                ValueView::Null
                            },
                        },
                ),
            ),
            Value::Arr(a) => ValueView::Arr(
                Seq::new(
                    a.children@.len(),
                    |i: int|
                        if 0 <= i < a.children@.len() {
                            a.children@[i].view()
                        } else {
                            ValueView::Null
                        },
                ),
            ),
        }
    }
}

impl View for Property {
    type V = PropertyView;

    open spec fn view(&self) -> PropertyView {
        PropertyView { lhs: self.lhs@, rhs: self.rhs@ }
    }
}

impl View for Object {
    type V = Seq<PropertyView>;

    open spec fn view(&self) -> Seq<PropertyView> {
        self.children@.map_values(|p: Property| p@)
    }
}

impl View for Array {
    type V = Seq<ValueView>;

    open spec fn view(&self) -> Seq<ValueView> {
        self.children@.map_values(|v: Value| v@)
    }
}

impl View for Root {
    type V = Option<ValueView>;

    open spec fn view(&self) -> Option<ValueView> {
        match self.child {
            Some(v) => Some(v@),
            None => None,
        }
    }
}

/// The view of an object value is made of the views of its properties.
pub proof fn lemma_view_obj(o: Object)
    ensures
        Value::Obj(o)@ == ValueView::Obj(o@),
{
    assert(Value::Obj(o)@->Obj_0 =~= o@);
}

/// The view of an array value is made of the views of its items.
pub proof fn lemma_view_arr(a: Array)
    ensures
        Value::Arr(a)@ == ValueView::Arr(a@),
{
    assert(Value::Arr(a)@->Arr_0 =~= a@);
}

impl Value {
    /// A copy of the value, with the same view.
    pub fn duplicate(&self) -> (copy: Value)
        ensures
            copy@ == self@,
        decreases self,
    {
        match self {
            Value::Null => Value::Null,
            Value::Str(s) => Value::Str(s.clone()),
            Value::Num(s) => Value::Num(s.clone()),
            Value::Bool(b) => Value::Bool(*b),
            Value::Obj(o) => {
                let copy = o.duplicate();
                proof {
                    lemma_view_obj(*o);
                    lemma_view_obj(copy);
                }
                Value::Obj(copy)
            },
            Value::Arr(a) => {
                let copy = a.duplicate();
                proof {
                    lemma_view_arr(*a);
                    lemma_view_arr(copy);
                }
                Value::Arr(copy)
            },
        }
    }
}

impl Array {
    /// A copy of the array, with the same view.
    pub fn duplicate(&self) -> (copy: Array)
        ensures
            copy@ == self@,
        decreases self,
    {
        let mut children: Vec<Value> = Vec::new();
        let mut i: usize = 0;
        while i < self.children.len()
            invariant
                i <= self.children@.len(),
                children@.len() == i,
                forall|k: int| 0 <= k < i ==> (#[trigger] children@[k])@ == self.children@[k]@,
            decreases self.children@.len() - i,
        {
            let item = self.children[i].duplicate();
            children.push(item);
            i += 1;
        }
        let copy = Array { children };
        assert(copy@ =~= self@);
        copy
    }
}

impl Object {
    /// A copy of the object, with the same view.
    pub fn duplicate(&self) -> (copy: Object)
        ensures
            copy@ == self@,
        decreases self,
    {
        let mut children: Vec<Property> = Vec::new();
        let mut i: usize = 0;
        while i < self.children.len()
            invariant
                i <= self.children@.len(),
                children@.len() == i,
                forall|k: int| 0 <= k < i ==> (#[trigger] children@[k])@ == self.children@[k]@,
            decreases self.children@.len() - i,
        {
            let rhs = self.children[i].rhs.duplicate();
            children.push(Property { lhs: self.children[i].lhs.clone(), rhs });
            i += 1;
        }
        let copy = Object { children };
        assert(copy@ =~= self@);
        copy
    }
}

impl Clone for Value {
    fn clone(&self) -> (copy: Value)
        ensures
            copy@ == self@,
    {
        self.duplicate()
    }
}

impl Clone for Array {
    fn clone(&self) -> (copy: Array)
        ensures
            copy@ == self@,
    {
        self.duplicate()
    }
}

impl Clone for Object {
    fn clone(&self) -> (copy: Object)
        ensures
            copy@ == self@,
    {
        self.duplicate()
    }
}

impl Clone for Property {
    fn clone(&self) -> (copy: Property)
        ensures
            copy@ == self@,
    {
        Property { lhs: self.lhs.clone(), rhs: self.rhs.duplicate() }
    }
}

impl Clone for Root {
    fn clone(&self) -> (copy: Root)
        ensures
            copy@ == self@,
    {
        match &self.child {
            Some(v) => Root { child: Some(v.duplicate()) },
            None => Root { child: None },
        }
    }
}

/// The position after `p`: the next one, or `p` itself at the end of `t`.
pub open spec fn next_pos(t: Seq<TokenView>, p: int) -> int {
    if p < t.len() {
        p + 1
    } else {
        p
    }
}

/// How many tokens are left with the cursor at position `p`.
pub open spec fn tokens_left(t: Seq<TokenView>, p: int) -> nat {
    if 0 <= p < t.len() {
        (t.len() - p) as nat
    } else {
        0
    }
}

/// The value that a token is by itself, if it is one.
pub open spec fn scalar_of(tok: TokenView) -> Option<ValueView> {
    match tok {
        TokenView::Null => Some(ValueView::Null),
        TokenView::Bool(b) => Some(ValueView::Bool(b)),
        TokenView::Number(n) => Some(ValueView::Num(n)),
        TokenView::Str(s) => Some(ValueView::Str(s)),
        _ => None,
    }
}

/// The items of an array whose body begins at position `p`, and how many
/// tokens the body takes up: it ends before the first closing bracket on
/// its own level, or with `t`. Every value is an item; all else is passed over.
pub open spec fn array_items(t: Seq<TokenView>, p: int) -> (Seq<ValueView>, nat)
    decreases tokens_left(t, p),
{
    if !(0 <= p < t.len()) {
        (Seq::empty(), 0)
    } else {
        match t[p] {
            TokenView::RightBracket => (Seq::empty(), 0),
            TokenView::LeftBracket => {
                let inner = array_items(t, p + 1);
                let q = next_pos(t, p + 1 + inner.1);
                let rest = array_items(t, q);
                (seq![ValueView::Arr(inner.0)] + rest.0, (q - p) as nat + rest.1)
            },
            TokenView::LeftBrace => {
                let inner = object_items(t, p + 1);
                let q = next_pos(t, p + 1 + inner.1);
                let rest = array_items(t, q);
                (seq![ValueView::Obj(inner.0)] + rest.0, (q - p) as nat + rest.1)
            },
            tok => {
                let rest = array_items(t, p + 1);
                match scalar_of(tok) {
                    Some(v) => (seq![v] + rest.0, rest.1 + 1),
                    None => (rest.0, rest.1 + 1),
                }
            },
        }
    }
}

/// The value of a property whose tokens begin at position `p`, and how
/// many tokens they take up: they end before the first comma or closing
/// brace on their own level, or with `t`. The last value among them is the
/// property's; `so_far` is its value where there is none.
pub open spec fn property_value(t: Seq<TokenView>, p: int, so_far: ValueView) -> (ValueView, nat)
    decreases tokens_left(t, p),
{
    if !(0 <= p < t.len()) {
        (so_far, 0)
    } else {
        match t[p] {
            TokenView::Comma => (so_far, 0),
            TokenView::RightBrace => (so_far, 0),
            TokenView::LeftBracket => {
                let inner = array_items(t, p + 1);
                let q = next_pos(t, p + 1 + inner.1);
                let rest = property_value(t, q, ValueView::Arr(inner.0));
                (rest.0, (q - p) as nat + rest.1)
            },
            TokenView::LeftBrace => {
                let inner = object_items(t, p + 1);
                let q = next_pos(t, p + 1 + inner.1);
                let rest = property_value(t, q, ValueView::Obj(inner.0));
                (rest.0, (q - p) as nat + rest.1)
            },
            tok => {
                let rest = property_value(
                    t,
                    p + 1,
                    match scalar_of(tok) {
                        Some(v) => v,
                        None => so_far,
                    },
                );
                (rest.0, rest.1 + 1)
            },
        }
    }
}

/// The properties of an object whose body begins at position `p`, and
/// how many tokens the body takes up: it ends before the first closing
/// brace or end marker on its own level, or with `t`. A property begins
/// with a quote marker and a string, its key; a quote marker without a
/// string behind it is passed over with the token behind it, and so is
/// every other token.
pub open spec fn object_items(t: Seq<TokenView>, p: int) -> (Seq<PropertyView>, nat)
    decreases tokens_left(t, p),
{
    if !(0 <= p < t.len()) {
        (Seq::empty(), 0)
    } else {
        match t[p] {
            TokenView::RightBrace => (Seq::empty(), 0),
            TokenView::Eof => (Seq::empty(), 0),
            TokenView::Quote => {
                if p + 1 >= t.len() {
                    (Seq::empty(), 1)
                } else {
                    match t[p + 1] {
                        TokenView::Str(key) => {
                            let value = property_value(t, p + 2, ValueView::Null);
                            let rest = object_items(t, p + 2 + value.1);
                            (
                                seq![PropertyView { lhs: key, rhs: value.0 }] + rest.0,
                                2 + value.1 + rest.1,
                            )
                        },
                        _ => {
                            let rest = object_items(t, p + 2);
                            (rest.0, 2 + rest.1)
                        },
                    }
                }
            },
            _ => {
                let rest = object_items(t, p + 1);
                (rest.0, rest.1 + 1)
            },
        }
    }
}

/// The first value from position `p` on, if there is one, and how many
/// tokens lie between `p` and the end of that value. What follows the
/// first value plays no part.
pub open spec fn root_value(t: Seq<TokenView>, p: int) -> (Option<ValueView>, nat)
    decreases tokens_left(t, p),
{
    if !(0 <= p < t.len()) {
        (None, 0)
    } else {
        match t[p] {
            TokenView::LeftBracket => {
                let inner = array_items(t, p + 1);
                (Some(ValueView::Arr(inner.0)), (next_pos(t, p + 1 + inner.1) - p) as nat)
            },
            TokenView::LeftBrace => {
                let inner = object_items(t, p + 1);
                (Some(ValueView::Obj(inner.0)), (next_pos(t, p + 1 + inner.1) - p) as nat)
            },
            tok => match scalar_of(tok) {
                Some(v) => (Some(v), 1),
                None => {
                    let rest = root_value(t, p + 1);
                    (rest.0, rest.1 + 1)
                },
            },
        }
    }
}

/// The value that a token is by itself, if it is one.
pub fn scalar_value(tok: &Token) -> (v: Option<Value>)
    ensures
        match v {
            Some(x) => scalar_of(tok@) == Some(x@),
            None => scalar_of(tok@) is None,
        },
{
    match tok {
        Token::Null => Some(Value::Null),
        Token::Bool(b) => Some(Value::Bool(*b)),
        Token::Number(n) => Some(Value::Num(n.clone())),
        Token::Str(s) => Some(Value::Str(s.clone())),
        _ => None,
    }
}

/// A cursor over the tokens of one document. `curr_pos` is the position of
/// the current token; at the end of the tokens there is none.
pub struct Parser {
    pub tokens: Vec<Token>,
    pub curr_pos: usize,
}

impl Parser {
    /// The cursor is on a token or at the end of the tokens.
    pub open spec fn wf(&self) -> bool {
        self.curr_pos <= self.tokens@.len()
    }

    /// The tokens as contracts see them.
    pub open spec fn views(&self) -> Seq<TokenView> {
        token_views(self.tokens@)
    }

    /// How many tokens are left, the current one included.
    pub open spec fn left(&self) -> nat {
        tokens_left(self.views(), self.curr_pos as int)
    }

    /// A cursor on the first of `tokens`.
    pub fn new(tokens: Vec<Token>) -> (parser: Parser)
        ensures
            parser.wf(),
            parser.tokens == tokens,
            parser.curr_pos == 0,
    {
        Parser { tokens, curr_pos: 0 }
    }

    /// Moves the cursor to the next token; at the end of the tokens it stays.
    pub fn advance(&mut self)
        ensures
            final(self).tokens == old(self).tokens,
            final(self).curr_pos == next_pos(old(self).views(), old(self).curr_pos as int),
    {
        if self.curr_pos < self.tokens.len() {
            self.curr_pos = self.curr_pos + 1;
        }
    }

    /// Reads an array with the cursor on its opening bracket, and leaves
    /// the cursor on its closing bracket, or at the end where there is none.
    pub fn parse_array(&mut self) -> (arr: Array)
        requires
            old(self).wf(),
        ensures
            final(self).wf(),
            final(self).tokens == old(self).tokens,
            arr@ == array_items(
                old(self).views(),
                next_pos(old(self).views(), old(self).curr_pos as int),
            ).0,
            final(self).curr_pos == next_pos(old(self).views(), old(self).curr_pos as int)
                + array_items(
                old(self).views(),
                next_pos(old(self).views(), old(self).curr_pos as int),
            ).1,
        decreases old(self).left(),
    {
        let ghost t = self.views();
        let ghost p = self.curr_pos as int;
        let ghost start = next_pos(t, p);
        let mut arr = Array { children: Vec::new() };
        self.advance();
        let mut open = true;
        assert(arr@ + array_items(t, start).0 =~= array_items(t, start).0);
        while open && self.curr_pos < self.tokens.len()
            invariant
                self.wf(),
                self.tokens == old(self).tokens,
                self.views() == t,
                p == old(self).curr_pos,
                start == next_pos(t, p),
                start <= self.curr_pos,
                arr@ + array_items(t, self.curr_pos as int).0 == array_items(t, start).0,
                self.curr_pos + array_items(t, self.curr_pos as int).1 == start + array_items(
                    t,
                    start,
                ).1,
                !open ==> array_items(t, self.curr_pos as int) == (Seq::<ValueView>::empty(), 0nat),
            decreases tokens_left(t, self.curr_pos as int) + (if open { 1nat } else { 0nat }),
        {
            let ghost c = self.curr_pos as int;
            let ghost before = arr@;
            assert(t[c] == self.tokens@[c]@);
            match scalar_value(&self.tokens[self.curr_pos]) {
                Some(v) => {
                    arr.children.push(v);
                    self.advance();
                },
                None => {
                    match &self.tokens[self.curr_pos] {
                        Token::RightBracket => {
                            open = false;
                        },
                        Token::LeftBracket => {
                            let inner = self.parse_array();
                            proof {
                                lemma_view_arr(inner);
                            }
                            arr.children.push(Value::Arr(inner));
                            self.advance();
                        },
                        Token::LeftBrace => {
                            let inner = self.parse_object();
                            proof {
                                lemma_view_obj(inner);
                            }
                            arr.children.push(Value::Obj(inner));
                            self.advance();
                        },
                        _ => {
                            self.advance();
                        },
                    }
                },
            }
            assert(arr@ + array_items(t, self.curr_pos as int).0 =~= before + array_items(t, c).0);
        }
        arr
    }

    /// Reads the value of the property `key` with the cursor on the key,
    /// and leaves the cursor on the comma or closing brace behind the
    /// property, or at the end where there is none.
    pub fn parse_property(&mut self, key: String) -> (prop: Property)
        requires
            old(self).wf(),
        ensures
            final(self).wf(),
            final(self).tokens == old(self).tokens,
            prop@ == (PropertyView {
                lhs: key@,
                rhs: property_value(
                    old(self).views(),
                    next_pos(old(self).views(), old(self).curr_pos as int),
                    ValueView::Null,
                ).0,
            }),
            final(self).curr_pos == next_pos(old(self).views(), old(self).curr_pos as int)
                + property_value(
                old(self).views(),
                next_pos(old(self).views(), old(self).curr_pos as int),
                ValueView::Null,
            ).1,
        decreases old(self).left(),
    {
        let ghost t = self.views();
        let ghost p = self.curr_pos as int;
        let ghost start = next_pos(t, p);
        let mut rhs = Value::Null;
        self.advance();
        let mut open = true;
        while open && self.curr_pos < self.tokens.len()
            invariant
                self.wf(),
                self.tokens == old(self).tokens,
                self.views() == t,
                p == old(self).curr_pos,
                start == next_pos(t, p),
                start <= self.curr_pos,
                property_value(t, self.curr_pos as int, rhs@).0 == property_value(
                    t,
                    start,
                    ValueView::Null,
                ).0,
                self.curr_pos + property_value(t, self.curr_pos as int, rhs@).1 == start
                    + property_value(t, start, ValueView::Null).1,
                !open ==> property_value(t, self.curr_pos as int, rhs@) == (rhs@, 0nat),
            decreases tokens_left(t, self.curr_pos as int) + (if open { 1nat } else { 0nat }),
        {
            let ghost c = self.curr_pos as int;
            assert(t[c] == self.tokens@[c]@);
            match scalar_value(&self.tokens[self.curr_pos]) {
                Some(v) => {
                    rhs = v;
                    self.advance();
                },
                None => {
                    match &self.tokens[self.curr_pos] {
                        Token::Comma => {
                            open = false;
                        },
                        Token::RightBrace => {
                            open = false;
                        },
                        Token::LeftBracket => {
                            let inner = self.parse_array();
                            proof {
                                lemma_view_arr(inner);
                            }
                            rhs = Value::Arr(inner);
                            self.advance();
                        },
                        Token::LeftBrace => {
                            let inner = self.parse_object();
                            proof {
                                lemma_view_obj(inner);
                            }
                            rhs = Value::Obj(inner);
                            self.advance();
                        },
                        _ => {
                            self.advance();
                        },
                    }
                },
            }
        }
        Property { lhs: key, rhs }
    }

    /// Reads an object with the cursor on its opening brace, and leaves
    /// the cursor on its closing brace or on the end marker, or at the end
    /// where there is neither.
    pub fn parse_object(&mut self) -> (obj: Object)
        requires
            old(self).wf(),
        ensures
            final(self).wf(),
            final(self).tokens == old(self).tokens,
            obj@ == object_items(
                old(self).views(),
                next_pos(old(self).views(), old(self).curr_pos as int),
            ).0,
            final(self).curr_pos == next_pos(old(self).views(), old(self).curr_pos as int)
                + object_items(
                old(self).views(),
                next_pos(old(self).views(), old(self).curr_pos as int),
            ).1,
        decreases old(self).left(),
    {
        let ghost t = self.views();
        let ghost p = self.curr_pos as int;
        let ghost start = next_pos(t, p);
        let mut obj = Object { children: Vec::new() };
        self.advance();
        let mut open = true;
        assert(obj@ + object_items(t, start).0 =~= object_items(t, start).0);
        while open && self.curr_pos < self.tokens.len()
            invariant
                self.wf(),
                self.tokens == old(self).tokens,
                self.views() == t,
                p == old(self).curr_pos,
                start == next_pos(t, p),
                start <= self.curr_pos,
                obj@ + object_items(t, self.curr_pos as int).0 == object_items(t, start).0,
                self.curr_pos + object_items(t, self.curr_pos as int).1 == start + object_items(
                    t,
                    start,
                ).1,
                !open ==> object_items(t, self.curr_pos as int) == (
                    Seq::<PropertyView>::empty(),
                    0nat,
                ),
            decreases tokens_left(t, self.curr_pos as int) + (if open { 1nat } else { 0nat }),
        {
            let ghost c = self.curr_pos as int;
            let ghost before = obj@;
            assert(t[c] == self.tokens@[c]@);
            match &self.tokens[self.curr_pos] {
                Token::RightBrace => {
                    open = false;
                },
                Token::Eof => {
                    open = false;
                },
                Token::Quote => {
                    self.advance();
                    if self.curr_pos >= self.tokens.len() {
                        open = false;
                    } else {
                        assert(t[c + 1] == self.tokens@[c + 1]@);
                        let key = match &self.tokens[self.curr_pos] {
                            Token::Str(k) => Some(k.clone()),
                            _ => None,
                        };
                        match key {
                            Some(k) => {
                                let prop = self.parse_property(k);
                                obj.children.push(prop);
                            },
                            None => {
                                self.advance();
                            },
                        }
                    }
                },
                _ => {
                    self.advance();
                },
            }
            assert(obj@ + object_items(t, self.curr_pos as int).0 =~= before + object_items(
                t,
                c,
            ).0);
        }
        obj
    }

    /// Reads the first value from the cursor on, if there is one, and
    /// leaves the cursor behind it.
    pub fn parse(&mut self) -> (root: Root)
        requires
            old(self).wf(),
        ensures
            final(self).wf(),
            final(self).tokens == old(self).tokens,
            root@ == root_value(old(self).views(), old(self).curr_pos as int).0,
            final(self).curr_pos == old(self).curr_pos + root_value(
                old(self).views(),
                old(self).curr_pos as int,
            ).1,
    {
        let ghost t = self.views();
        let ghost start = self.curr_pos as int;
        let mut root = Root { child: None };
        while root.child.is_none() && self.curr_pos < self.tokens.len()
            invariant
                self.wf(),
                self.tokens == old(self).tokens,
                self.views() == t,
                start <= self.curr_pos,
                root.child is None ==> root_value(t, self.curr_pos as int).0 == root_value(
                    t,
                    start,
                ).0 && self.curr_pos + root_value(t, self.curr_pos as int).1 == start + root_value(
                    t,
                    start,
                ).1,
                root.child is Some ==> root@ == root_value(t, start).0 && self.curr_pos == start
                    + root_value(t, start).1,
            decreases tokens_left(t, self.curr_pos as int) + (if root.child is None { 1nat } else { 0nat }),
        {
            let ghost c = self.curr_pos as int;
            assert(t[c] == self.tokens@[c]@);
            match scalar_value(&self.tokens[self.curr_pos]) {
                Some(v) => {
                    root.child = Some(v);
                },
                None => {
                    match &self.tokens[self.curr_pos] {
                        Token::LeftBracket => {
                            let inner = self.parse_array();
                            proof {
                                lemma_view_arr(inner);
                            }
                            root.child = Some(Value::Arr(inner));
                        },
                        Token::LeftBrace => {
                            let inner = self.parse_object();
                            proof {
                                lemma_view_obj(inner);
                            }
                            root.child = Some(Value::Obj(inner));
                        },
                        _ => {},
                    }
                },
            }
            self.advance();
        }
        root
    }
}

} // verus!
