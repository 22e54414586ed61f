# biome_trivia

The layout rules a code formatter applies to comments and to skipped token trivia,
written in Verus and proved against their specifications.

- `text`: byte ranges of the source text.
- `comments`: comments, their kinds and surrounding line breaks, and the table of
  leading, dangling and trailing comments of each node.
- `token`: tokens and the trivia pieces around them.
- `format_element`: the document elements the rules write.
- `formatter`: the comment table read, the document written, the tokens printed and the
  comments marked formatted.
- `trivia`: the layout of leading, trailing and dangling comments, of skipped token
  trivia, and of tokens printed only when their group breaks; each layout is given as a
  specification function and each formatting function is proved to write exactly it.
- `laws`: properties of every layout, proved from those specifications.
