//! The configuration of a run: the templates with their modes, and what is
//! to become of the rows.

use vstd::prelude::*;
use vstd::string::StringSliceAdditionalSpecFns;
use std::collections::VecDeque;
use crate::ast::Syntax;
use crate::db::{flushes, texts, Glue};
use crate::driver::{drive, spec_drive, templates_view};
use crate::evaluator::{TemplateError, TemplateFault};
use crate::filters::Registry;
use crate::stream::{messages, send_input, spec_messages_from, InputToken, Message};

verus! {

/// What a template may ask for on one of its variables.
#[derive(Debug)]
pub enum VarExpr {
    Regex(Vec<u8>),
    If(TokenExpr),
}

/// A template with the way in which it is applied to the stream of lines.
#[derive(Debug)]
pub struct TokenExpr {
    /// The text of the template.
    pub tag: Vec<u8>,
    /// Whether the template is applied to line after line until one does
    /// not match.
    pub many: Option<bool>,
    /// The number of lines that the template is applied to.
    pub count: Option<usize>,
    /// The mark before the section that the template is for, if any.
    pub begin: Option<Vec<u8>>,
    /// The mark after the section that the template is for, if any.
    pub end: Option<Vec<u8>>,
    /// What the template asks for on its variables, by their names.
    pub vars: Option<Vec<(Vec<u8>, VarExpr)>>,
}

/// A template as it stands in the configuration.
pub type Token = TokenExpr;

/// How a template is applied to the stream of lines.
#[derive(Debug, Clone, Copy, PartialEq, Eq)]
pub enum Mode {
    /// To one line.
    Once,
    /// To as many lines as the number says.
    Count(usize),
    /// To line after line until one does not match.
    Many,
}

impl TokenExpr {
    /// How the template is applied: to many lines where `many` says so,
    /// else to as many as `count` says, else to one.
    pub open spec fn spec_mode(&self) -> Mode {
        if self.many == Some(true) {
            Mode::Many
        } else {
            match self.count {
                Some(n) => Mode::Count(n),
                None => Mode::Once,
            }
        }
    }

    /// A template that is applied to one line.
    pub fn new_with_tag(tag: &Vec<u8>) -> (t: TokenExpr)
        ensures
            t.tag@ == tag@,
            t.spec_mode() == Mode::Once,
            t.many is None,
            t.count is None,
            t.begin is None,
            t.end is None,
            t.vars is None,
    {
        TokenExpr {
            tag: crate::text::copy(tag.as_slice()),
            many: None,
            count: None,
            begin: None,
            end: None,
            vars: None,
        }
    }

    /// How the template is applied.
    pub fn mode(&self) -> (m: Mode)
        ensures
            m == self.spec_mode(),
    {
        match self.many {
            Some(true) => Mode::Many,
            _ => match self.count {
                Some(n) => Mode::Count(n),
                None => Mode::Once,
            },
        }
    }
}

/// How the result of the query is shown.
#[derive(Debug, Clone, Copy, PartialEq, Eq)]
pub enum Output {
    Table,
    Json,
}

/// The configuration of a run.
#[derive(Debug)]
pub struct AppConfig {
    /// The templates, in the order in which they are applied.
    pub templates: Vec<Token>,
    /// The name of the table that the rows go to.
    pub table: Option<Vec<u8>>,
    /// The name of the column that holds the time at which a row was put
    /// into the table.
    pub timestamp: Option<Vec<u8>>,
    /// How the result of the query is shown.
    pub output: Option<Output>,
    /// The names of the variables, for the reader of the configuration.
    pub vars: Option<Vec<Vec<u8>>>,
    /// The names of the filters, for the reader of the configuration.
    pub filters: Option<Vec<Vec<u8>>>,
}

impl Default for AppConfig {
    fn default() -> (c: AppConfig)
        ensures
            c.templates@.len() == 0,
            c.table is None,
            c.timestamp is None,
            c.output is None,
            c.vars is None,
            c.filters is None,
    {
        AppConfig {
            templates: Vec::new(),
            table: None,
            timestamp: None,
            output: None,
            vars: None,
            filters: None,
        }
    }
}

/// A run: the queue of the messages from the reader of the input, the
/// configuration, and the sink of the rows.
#[derive(Debug)]
pub struct App {
    pub tx: VecDeque<InputToken>,
    pub config: AppConfig,
    pub db: Glue,
}

/// The texts of a list that may be missing.
pub open spec fn name_option(a: Option<Vec<u8>>) -> Option<Seq<u8>> {
    match a {
        Some(x) => Some(x@),
        None => None,
    }
}

impl App {
    /// A run with the given configuration, an empty queue and a sink
    /// without table.
    pub fn new_with_config(config: AppConfig) -> (app: App)
        ensures
            app.config == config,
            app.tx@.len() == 0,
            app.db.table_name is None,
            app.db.timestamp is None,
            app.db.columns@.len() == 0,
    {
        App { tx: VecDeque::new(), config, db: Glue::new() }
    }

    /// Sends a byte to the parser. The byte 0 says that the input has come
    /// to its end.
    pub fn send_byte(&mut self, b: u8)
        ensures
            messages(final(self).tx@) == messages(old(self).tx@).push(Message::Byte(b)),
            final(self).config == old(self).config,
            final(self).db == old(self).db,
    {
        let ghost before = self.tx@;
        self.tx.push_back(InputToken::Byte(b));
        assert(messages(self.tx@) =~= messages(before).push(Message::Byte(b)));
    }

    /// Sends a line to the parser.
    pub fn send_string(&mut self, txt: Vec<u8>)
        ensures
            messages(final(self).tx@) == messages(old(self).tx@).push(Message::Line(txt@)),
            final(self).config == old(self).config,
            final(self).db == old(self).db,
    {
        let ghost before = self.tx@;
        let ghost line = txt@;
        self.tx.push_back(InputToken::Channel(txt));
        assert(messages(self.tx@) =~= messages(before).push(Message::Line(line)));
    }

    /// Sends the whole input to the parser, line by line, and then the end
    /// of the stream.
    pub fn input_handler(&mut self, input: &[u8])
        ensures
            messages(final(self).tx@) == messages(old(self).tx@) + spec_messages_from(input@, 0),
            final(self).config == old(self).config,
            final(self).db == old(self).db,
    {
        send_input(&mut self.tx, input);
    }

    /// Drives the templates over the messages in the queue and gives the
    /// statements that create the table of the configuration and put the
    /// rows into it. Where a template cannot be used, its place and the
    /// reason are given, and the queue stays as it was. `now` is the time
    /// of now as the caller has read it from the clock, written as text:
    /// where the configuration names a time column, each row is put in
    /// with it.
    pub fn parse_handler(
        &mut self,
        templates: &Vec<TokenExpr>,
        syn: &Syntax,
        filters: &Registry,
        now: &[u8],
    ) -> (r: Result<Vec<Vec<u8>>, (usize, TemplateError)>)
        requires
            syn@.wf(),
        ensures
            final(self).config == old(self).config,
            match r {
                Ok(statements) => match spec_drive(
                    templates_view(templates@),
                    syn@,
                    messages(old(self).tx@),
                    filters@,
                ) {
                    Ok((rows, left)) => messages(final(self).tx@) == left && flushes(
                        texts(statements@),
                        rows,
                        final(self).db.spec_table_name(),
                        texts(final(self).db.columns@),
                        name_option(old(self).config.timestamp),
                        now@,
                    ) && name_option(final(self).db.table_name) == name_option(
                        old(self).config.table,
                    ),
                    Err(_) => false,
                },
                Err((i, e)) => spec_drive(
                    templates_view(templates@),
                    syn@,
                    messages(old(self).tx@),
                    filters@,
                ) == Err::<(Seq<Map<Seq<u8>, Seq<u8>>>, Seq<Message>), (int, TemplateFault)>(
                    (i as int, e@),
                ) && final(self).tx@ == old(self).tx@ && final(self).db == old(self).db,
            },
    {
        let rows = match drive(templates, &mut self.tx, syn, filters) {
            Ok(rows) => rows,
            Err(fault) => {
                return Err(fault);
            },
        };
        let table = match &self.config.table {
            Some(name) => Some(crate::text::copy(name.as_slice())),
            None => None,
        };
        let timestamp = match &self.config.timestamp {
            Some(name) => Some(crate::text::copy(name.as_slice())),
            None => None,
        };
        Ok(self.db.flush(&rows, table, timestamp, now))
    }

    /// The name of the table that the rows go to.
    pub fn table_name(&self) -> (r: Vec<u8>)
        ensures
            r@ == self.db.spec_table_name(),
    {
        self.db.table_name()
    }

    /// The query that is run where none is given: all of the table.
    pub fn default_query(&self) -> (r: Vec<u8>)
        ensures
            r@ == "SELECT * FROM ".spec_bytes() + self.db.spec_table_name() + ";".spec_bytes(),
    {
        let mut sql = crate::text::copy("SELECT * FROM ".as_bytes());
        let name = self.db.table_name();
        sql.extend_from_slice(name.as_slice());
        sql.extend_from_slice(";".as_bytes());
        sql
    }
}

} // verus!
