# cw-serial-keyer

A Morse/CW keyer on serial port modem-control lines, with a core that is
verified with Verus.

- `src/` is the core. It turns text into Morse, works out the timing and decides,
  step by step, which line to switch, how long to wait and what to answer. It does
  no input or output.
- `app/` drives the port: a dedicated blocking thread does what the worker asks
  for, and an async handle sends it commands.
- `tests/` runs the core.

## Timing

A dit is `1200 / wpm` ms, a dash is 3 dits, the character gap is 3 dits and the
word gap is 7 dits. A text that comes less than a character gap after another
begins with what is missing of it; the PTT times and any time spent waiting count.
Weighting is a percentage with 50 as nominal: it scales the marks by
`weighting / 50`, and the space inside a character gives or takes what a dit takes
or gives, so that the two together always last 2 dits.

## Laws

Beside the contract of each function, these are proved for every sequence of
commands and line failures, but for the conditions they name:

- from any point on, also after a cleared buffer or a line that could not be
  switched, every accepted text is keyed whole and in order, with exactly the marks
  and gaps that its characters demand, whatever else is asked meanwhile, until a
  line cannot be switched, the buffer is cleared or the worker is told to close or
  loses its handle; what a cleared buffer leaves to key is nothing;
- two characters are kept apart by at least a character gap, in a text and from one
  text to the next;
- the key is never pressed while PTT is off;
- unless it could not be released, the key is down only during a mark;
- a worker that stops has last asked for both lines to be off, and has left off each
  of them that could be switched then;
- no line but those configured is ever switched, and the start is announced once;
- speed, weighting and PTT times stay in force until they are set anew;
- a text that reaches an idle keyer after a character gap or more is sent as if it
  were the first;
- the reported status follows the lines, asking for it changes nothing, and the
  text under way is not counted as queued;
- every command is answered once, and a command to clear the buffer with success
  only if every line was switched off;
- a cleared buffer switches nothing on before new text comes in, and a worker that
  is told to close finishes the character under way, keys no other and, if nothing
  else comes in, stops;
- a keyer that reports that it is not busy has nothing left to key, and has keyed
  every text accepted since any earlier point to the end, under the conditions of
  the first law;
- over a proxy session, each side is handed what the other sends, byte for byte.

## What is trusted

`std::time::Duration` (`from_nanos`, `as_nanos`, `saturating_sub`) and
`PathBuf::clone` do what their documentation says. The errors of `serialport` and
`std::io` are carried through unread.
