//! The configuration tree that the config structures are parsed from: a
//! scalar, an array, or a mapping, each node carrying the source it was
//! loaded from and the labels of that source.
use vstd::prelude::*;
use vstd::string::StrSliceExecFns;
use vstd::string::StringExecFns;

use crate::strutil;

verus! {

/// Where a configuration node was loaded from.
#[derive(Debug, Clone)]
pub enum ConfigSource {
    Null,
    File(String),
}

#[derive(Debug)]
pub enum ConfigData {
    Bool(bool),
    Integer(i64),
    Str(String),
    Array(Vec<ConfigValue>),
    Mapping(Vec<(String, ConfigValue)>),
}

#[derive(Debug)]
pub struct ConfigValue {
    pub source: ConfigSource,
    pub labels: Vec<String>,
    pub data: Option<Box<ConfigData>>,
}

/// First value under `key`, walking the mapping in order.
pub open spec fn spec_assoc_get(m: Seq<(String, ConfigValue)>, key: Seq<char>) -> Option<
    ConfigValue,
>
    decreases m.len(),
{
    if m.len() == 0 {
        None
    } else if m[0].0@ == key {
        Some(m[0].1)
    } else {
        spec_assoc_get(m.drop_first(), key)
    }
}

fn assoc_get<'a>(m: &'a Vec<(String, ConfigValue)>, key: &str) -> (r: Option<&'a ConfigValue>)
    ensures
        match r {
            Some(v) => spec_assoc_get(m@, key@) == Some(*v),
            None => spec_assoc_get(m@, key@) is None,
        },
{
    let n = m.len();
    let mut i: usize = 0;
    proof {
        assert(m@.skip(0) =~= m@);
    }
    while i < n
        invariant
            i <= n,
            n == m@.len(),
            spec_assoc_get(m@, key@) == spec_assoc_get(m@.skip(i as int), key@),
        decreases n - i,
    {
        proof {
            let tail = m@.skip(i as int);
            assert(tail.len() > 0 && tail[0] == m@[i as int]);
            assert(tail.drop_first() =~= m@.skip(i as int + 1));
        }
        if strutil::str_eq(m[i].0.as_str(), key) {
            return Some(&m[i].1);
        }
        i = i + 1;
    }
    proof {
        assert(m@.skip(n as int) =~= Seq::<(String, ConfigValue)>::empty());
    }
    None
}

/// The decimal digits of a non-negative number.
pub open spec fn spec_dec_nat(n: int) -> Seq<char>
    decreases n,
{
    if n < 10 {
        seq![spec_digit(n)]
    } else {
        spec_dec_nat(n / 10).push(spec_digit(n % 10))
    }
}

pub open spec fn spec_digit(d: int) -> char {
    if d == 0 {
        '0'
    } else if d == 1 {
        '1'
    } else if d == 2 {
        '2'
    } else if d == 3 {
        '3'
    } else if d == 4 {
        '4'
    } else if d == 5 {
        '5'
    } else if d == 6 {
        '6'
    } else if d == 7 {
        '7'
    } else if d == 8 {
        '8'
    } else {
        '9'
    }
}

/// The decimal rendering of a signed number.
pub open spec fn spec_dec_i64(n: int) -> Seq<char> {
    if n >= 0 {
        spec_dec_nat(n)
    } else {
        seq!['-'] + spec_dec_nat(-n)
    }
}

fn digit_str(d: u64) -> (r: &'static str)
    requires
        d < 10,
    ensures
        r@ == seq![spec_digit(d as int)],
{
    proof {
        reveal_strlit("0");
        reveal_strlit("1");
        reveal_strlit("2");
        reveal_strlit("3");
        reveal_strlit("4");
        reveal_strlit("5");
        reveal_strlit("6");
        reveal_strlit("7");
        reveal_strlit("8");
        reveal_strlit("9");
    }
    if d == 0 {
        "0"
    } else if d == 1 {
        "1"
    } else if d == 2 {
        "2"
    } else if d == 3 {
        "3"
    } else if d == 4 {
        "4"
    } else if d == 5 {
        "5"
    } else if d == 6 {
        "6"
    } else if d == 7 {
        "7"
    } else if d == 8 {
        "8"
    } else {
        "9"
    }
}

pub fn format_u64(n: u64) -> (r: String)
    ensures
        r@ == spec_dec_nat(n as int),
    decreases n,
{
    if n < 10 {
        let mut s = String::new();
        s.append(digit_str(n));
        proof {
            assert(s@ =~= seq![spec_digit(n as int)]);
        }
        s
    } else {
        let mut s = format_u64(n / 10);
        s.append(digit_str(n % 10));
        proof {
            assert(s@ =~= spec_dec_nat(n as int / 10).push(spec_digit(n as int % 10)));
        }
        s
    }
}

pub fn format_i64(n: i64) -> (r: String)
    ensures
        r@ == spec_dec_i64(n as int),
{
    if n >= 0 {
        format_u64(n as u64)
    } else {
        let m: u64 = ((-(n + 1)) as u64) + 1;
        proof {
            assert(m as int == -(n as int));
        }
        let mut s = String::new();
        s.append("-");
        proof {
            reveal_strlit("-");
            assert(s@ =~= seq!['-']);
        }
        let digits = format_u64(m);
        s.append(digits.as_str());
        proof {
            assert(s@ =~= seq!['-'] + spec_dec_nat(-(n as int)));
        }
        s
    }
}

impl ConfigValue {
    pub open spec fn spec_get(self, key: Seq<char>) -> Option<ConfigValue> {
        match self.data {
            Some(d) => match *d {
                ConfigData::Mapping(m) => spec_assoc_get(m@, key),
                _ => None,
            },
            None => None,
        }
    }

    pub open spec fn spec_as_str(self) -> Option<Seq<char>> {
        match self.data {
            Some(d) => match *d {
                ConfigData::Str(s) => Some(s@),
                _ => None,
            },
            None => None,
        }
    }

    pub open spec fn spec_as_bool(self) -> Option<bool> {
        match self.data {
            Some(d) => match *d {
                ConfigData::Bool(b) => Some(b),
                _ => None,
            },
            None => None,
        }
    }

    pub open spec fn spec_as_integer(self) -> Option<i64> {
        match self.data {
            Some(d) => match *d {
                ConfigData::Integer(n) => Some(n),
                _ => None,
            },
            None => None,
        }
    }

    pub open spec fn spec_as_unsigned(self) -> Option<u64> {
        match self.spec_as_integer() {
            Some(n) => if n >= 0 {
                Some(n as u64)
            } else {
                None
            },
            None => None,
        }
    }

    pub open spec fn spec_as_array(self) -> Option<Seq<ConfigValue>> {
        match self.data {
            Some(d) => match *d {
                ConfigData::Array(a) => Some(a@),
                _ => None,
            },
            None => None,
        }
    }

    pub open spec fn spec_as_table(self) -> Option<Seq<(String, ConfigValue)>> {
        match self.data {
            Some(d) => match *d {
                ConfigData::Mapping(m) => Some(m@),
                _ => None,
            },
            None => None,
        }
    }

    pub open spec fn spec_is_str(self) -> bool {
        self.spec_as_str() is Some
    }

    pub open spec fn spec_is_table(self) -> bool {
        self.spec_as_table() is Some
    }

    pub open spec fn spec_is_array(self) -> bool {
        self.spec_as_array() is Some
    }

    pub open spec fn spec_get_as_str(self, key: Seq<char>) -> Option<Seq<char>> {
        match self.spec_get(key) {
            Some(v) => v.spec_as_str(),
            None => None,
        }
    }

    pub open spec fn spec_get_as_bool(self, key: Seq<char>) -> Option<bool> {
        match self.spec_get(key) {
            Some(v) => v.spec_as_bool(),
            None => None,
        }
    }

    pub open spec fn spec_get_as_unsigned(self, key: Seq<char>) -> Option<u64> {
        match self.spec_get(key) {
            Some(v) => v.spec_as_unsigned(),
            None => None,
        }
    }

    /// A scalar read leniently as text: strings as they are, booleans and
    /// integers through their canonical rendering.
    pub open spec fn spec_as_str_forced(self) -> Option<Seq<char>> {
        match self.data {
            Some(d) => match *d {
                ConfigData::Str(s) => Some(s@),
                ConfigData::Bool(b) => Some(
                    if b {
                        "true"@
                    } else {
                        "false"@
                    },
                ),
                ConfigData::Integer(n) => Some(spec_dec_i64(n as int)),
                _ => None,
            },
            None => None,
        }
    }

    pub open spec fn spec_get_as_str_forced(self, key: Seq<char>) -> Option<Seq<char>> {
        match self.spec_get(key) {
            Some(v) => v.spec_as_str_forced(),
            None => None,
        }
    }

    pub open spec fn spec_has_label(self, label: Seq<char>) -> bool {
        exists|i: int| 0 <= i < self.labels@.len() && self.labels@[i]@ == label
    }

    pub fn new(source: ConfigSource, labels: Vec<String>, data: Option<Box<ConfigData>>) -> (r:
        Self)
        ensures
            r == (ConfigValue { source, labels, data }),
    {
        ConfigValue { source, labels, data }
    }

    /// A bare string node.
    pub fn from_str(s: &str) -> (r: Self)
        ensures
            r.spec_as_str() == Some(s@),
            r.source is Null,
            r.labels@.len() == 0,
    {
        ConfigValue {
            source: ConfigSource::Null,
            labels: Vec::new(),
            data: Some(Box::new(ConfigData::Str(s.to_owned()))),
        }
    }

    pub fn get_source(&self) -> (r: &ConfigSource)
        ensures
            *r == self.source,
    {
        &self.source
    }

    /// A copy of this node's source.
    pub fn clone_source(&self) -> (r: ConfigSource)
        ensures
            r == self.source,
    {
        match &self.source {
            ConfigSource::Null => ConfigSource::Null,
            ConfigSource::File(p) => ConfigSource::File(p.clone()),
        }
    }

    pub fn get<'a>(&'a self, key: &str) -> (r: Option<&'a ConfigValue>)
        ensures
            match r {
                Some(v) => self.spec_get(key@) == Some(*v),
                None => self.spec_get(key@) is None,
            },
    {
        match &self.data {
            Some(d) => match &**d {
                ConfigData::Mapping(m) => assoc_get(m, key),
                _ => None,
            },
            None => None,
        }
    }

    pub fn as_str(&self) -> (r: Option<String>)
        ensures
            match r {
                Some(s) => self.spec_as_str() == Some(s@),
                None => self.spec_as_str() is None,
            },
    {
        match &self.data {
            Some(d) => match &**d {
                ConfigData::Str(s) => Some(s.clone()),
                _ => None,
            },
            None => None,
        }
    }

    pub fn as_bool(&self) -> (r: Option<bool>)
        ensures
            r == self.spec_as_bool(),
    {
        match &self.data {
            Some(d) => match &**d {
                ConfigData::Bool(b) => Some(*b),
                _ => None,
            },
            None => None,
        }
    }

    pub fn as_integer(&self) -> (r: Option<i64>)
        ensures
            r == self.spec_as_integer(),
    {
        match &self.data {
            Some(d) => match &**d {
                ConfigData::Integer(n) => Some(*n),
                _ => None,
            },
            None => None,
        }
    }

    pub fn as_array<'a>(&'a self) -> (r: Option<&'a Vec<ConfigValue>>)
        ensures
            match r {
                Some(a) => self.spec_as_array() == Some(a@),
                None => self.spec_as_array() is None,
            },
    {
        match &self.data {
            Some(d) => match &**d {
                ConfigData::Array(a) => Some(a),
                _ => None,
            },
            None => None,
        }
    }

    pub fn as_table<'a>(&'a self) -> (r: Option<&'a Vec<(String, ConfigValue)>>)
        ensures
            match r {
                Some(m) => self.spec_as_table() == Some(m@),
                None => self.spec_as_table() is None,
            },
    {
        match &self.data {
            Some(d) => match &**d {
                ConfigData::Mapping(m) => Some(m),
                _ => None,
            },
            None => None,
        }
    }

    pub fn is_str(&self) -> (r: bool)
        ensures
            r == self.spec_is_str(),
    {
        self.as_str().is_some()
    }

    pub fn is_table(&self) -> (r: bool)
        ensures
            r == self.spec_is_table(),
    {
        self.as_table().is_some()
    }

    pub fn is_array(&self) -> (r: bool)
        ensures
            r == self.spec_is_array(),
    {
        self.as_array().is_some()
    }

    pub fn get_as_str(&self, key: &str) -> (r: Option<String>)
        ensures
            match r {
                Some(s) => self.spec_get_as_str(key@) == Some(s@),
                None => self.spec_get_as_str(key@) is None,
            },
    {
        match self.get(key) {
            Some(v) => v.as_str(),
            None => None,
        }
    }

    pub fn get_as_bool(&self, key: &str) -> (r: Option<bool>)
        ensures
            r == self.spec_get_as_bool(key@),
    {
        match self.get(key) {
            Some(v) => v.as_bool(),
            None => None,
        }
    }

    pub fn get_as_unsigned_integer(&self, key: &str) -> (r: Option<u64>)
        ensures
            r == self.spec_get_as_unsigned(key@),
    {
        match self.get(key) {
            Some(v) => match v.as_integer() {
                Some(n) => if n >= 0 {
                    Some(n as u64)
                } else {
                    None
                },
                None => None,
            },
            None => None,
        }
    }

    pub fn get_as_array<'a>(&'a self, key: &str) -> (r: Option<&'a Vec<ConfigValue>>)
        ensures
            match r {
                Some(a) => match self.spec_get(key@) {
                    Some(v) => v.spec_as_array() == Some(a@),
                    None => false,
                },
                None => match self.spec_get(key@) {
                    Some(v) => v.spec_as_array() is None,
                    None => true,
                },
            },
    {
        match self.get(key) {
            Some(v) => v.as_array(),
            None => None,
        }
    }

    pub fn as_str_forced(&self) -> (r: Option<String>)
        ensures
            match r {
                Some(s) => self.spec_as_str_forced() == Some(s@),
                None => self.spec_as_str_forced() is None,
            },
    {
        match &self.data {
            Some(d) => match &**d {
                ConfigData::Str(s) => Some(s.clone()),
                ConfigData::Bool(b) => {
                    if *b {
                        Some(String::from_str("true"))
                    } else {
                        Some(String::from_str("false"))
                    }
                },
                ConfigData::Integer(n) => Some(format_i64(*n)),
                _ => None,
            },
            None => None,
        }
    }

    pub fn get_as_str_forced(&self, key: &str) -> (r: Option<String>)
        ensures
            match r {
                Some(s) => self.spec_get_as_str_forced(key@) == Some(s@),
                None => self.spec_get_as_str_forced(key@) is None,
            },
    {
        match self.get(key) {
            Some(v) => v.as_str_forced(),
            None => None,
        }
    }

    fn has_label(&self, label: &str) -> (r: bool)
        ensures
            r == self.spec_has_label(label@),
    {
        let n = self.labels.len();
        let mut i: usize = 0;
        while i < n
            invariant
                i <= n,
                n == self.labels@.len(),
                forall|k: int| 0 <= k < i ==> self.labels@[k]@ != label@,
            decreases n - i,
        {
            if strutil::str_eq(self.labels[i].as_str(), label) {
                return true;
            }
            i = i + 1;
        }
        false
    }

    /// This node, only when its source carries `label`.
    pub fn select_label<'a>(&'a self, label: &str) -> (r: Option<&'a ConfigValue>)
        ensures
            self.spec_has_label(label@) ==> r == Some(self),
            !self.spec_has_label(label@) ==> r is None,
    {
        if self.has_label(label) {
            Some(self)
        } else {
            None
        }
    }

    /// This node, only when its source does not carry `label`.
    pub fn reject_label<'a>(&'a self, label: &str) -> (r: Option<&'a ConfigValue>)
        ensures
            self.spec_has_label(label@) ==> r is None,
            !self.spec_has_label(label@) ==> r == Some(self),
    {
        if self.has_label(label) {
            None
        } else {
            Some(self)
        }
    }
}

} // verus!
